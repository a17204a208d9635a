//! What mappings, sourced files and formatted lines come to.
use crate::config::{MapLine, RcFile};
use crate::format::{filled_on, text_width};
use crate::key::Stroke;
use crate::keymap::{canonical_strokes, Maps, ModeClass, Rhs};
use crate::layers::Load;
use crate::operators::format_width;
use crate::options::Options;
use crate::state::Vim;
use vstd::prelude::*;

verus! {

// ---- mappings ----------------------------------------------------------------------------

/// A mapping is found in the table that it was made for, with its keys in one
/// spelling; everything else in that table and all of the others stays.
pub proof fn a_mapping_stays_in_its_table(
    maps: Maps,
    class: ModeClass,
    from: Seq<Stroke>,
    to: Rhs,
    other: ModeClass,
    keys: Seq<Stroke>,
)
    ensures
        ({
            let after = maps.mapped(class, from, to);
            &&& (after.table(class))(canonical_strokes(from)) == Some(to)
            &&& keys != canonical_strokes(from) ==> (after.table(class))(keys) == (maps.table(
                class,
            ))(keys)
            &&& other != class ==> (after.table(other))(keys) == (maps.table(other))(keys)
            &&& (maps.table(ModeClass::Normal) == maps.normal) && (maps.table(ModeClass::Visual)
                == maps.visual) && (maps.table(ModeClass::Insert) == maps.insert)
        }),
{
}

/// The mappings of a file are made in its order: of two for the same keys the
/// later one counts.
pub proof fn mappings_are_made_in_order(maps: Maps, list: Seq<MapLine>, m: MapLine)
    ensures
        maps.mapped_all(Seq::empty()) == maps,
        maps.mapped_all(list.push(m)) == maps.mapped_all(list).mapped(
            m.class,
            m.lhs,
            (Rhs { keys: m.rhs, noremap: m.noremap }),
        ),
        (maps.mapped_all(list.push(m)).table(m.class))(canonical_strokes(m.lhs)) == Some(
            Rhs { keys: m.rhs, noremap: m.noremap },
        ),
{
    assert(list.push(m).drop_last() =~= list);
}

/// A file that is applied sets the options that it chooses and makes its
/// mappings; nothing else of the engine changes.
pub proof fn a_file_is_applied(v: Vim, rc: RcFile)
    ensures
        v.configured(rc).options == v.options.chosen_all(rc.settings),
        v.configured(rc).keymaps == v.keymaps.mapped_all(rc.mappings),
        v.configured(rc) == (Vim {
            options: v.configured(rc).options,
            keymaps: v.configured(rc).keymaps,
            ..v
        }),
{
}

// ---- sourced files -----------------------------------------------------------------------

/// The files that a file sources are read right after it, in its order, before
/// those that were wanted already. Beyond the fourth file in a chain none is.
pub proof fn sources_are_read_in_order(l: Load, rc: RcFile, options: Options, i: int)
    requires
        l.pending.len() > 0,
        0 <= i < rc.sources.len(),
    ensures
        ({
            let depth = l.pending.last().1;
            let after = l.fed(Some(rc), options).pending;
            let rest = l.pending.len() - 1;
            &&& depth < 4 ==> after.len() == rest + rc.sources.len() && after[after.len() - 1 - i]
                == (rc.sources[i], (depth + 1) as usize)
            &&& depth >= 4 ==> after == l.pending.drop_last()
            &&& depth < 4 ==> after.take(rest) == l.pending.drop_last()
        }),
{
    let depth = l.pending.last().1;
    let after = l.fed(Some(rc), options).pending;
    if depth < 4 {
        assert(after.take(l.pending.len() - 1) =~= l.pending.drop_last());
    }
}

/// A file that cannot be read is passed over.
pub proof fn a_missing_file_is_passed_over(l: Load, options: Options)
    requires
        l.pending.len() > 0,
    ensures
        l.fed(None, options) == (Load { pending: l.pending.drop_last(), ..l }),
{
}

// ---- formatting --------------------------------------------------------------------------

/// Lines are filled as far as they go: the word that begins a line would not
/// have fitted behind the line before it.
pub proof fn lines_are_filled(
    ws: Seq<Seq<char>>,
    i: int,
    line: Seq<char>,
    indent: Seq<char>,
    width: int,
    k: int,
) -> (j: int)
    requires
        0 <= i <= ws.len(),
        0 <= k,
        k + 1 < filled_on(ws, i, line, indent, width).len(),
    ensures
        ({
            let lines = filled_on(ws, i, line, indent, width);
            &&& i <= j < ws.len()
            &&& (indent + ws[j]).is_prefix_of(lines[k + 1])
            &&& text_width(lines[k]) + 1 + text_width(ws[j]) > width
        }),
    decreases ws.len() - i,
{
    let lines = filled_on(ws, i, line, indent, width);
    if i >= ws.len() {
        i
    } else if text_width(line) + 1 + text_width(ws[i]) > width {
        let rest = filled_on(ws, i + 1, indent + ws[i], indent, width);
        assert(lines =~= seq![line] + rest);
        lemma_first_line(ws, i + 1, indent + ws[i], indent, width);
        if k == 0 {
            assert(lines[1] == rest[0]);
            i
        } else {
            assert(lines[k] == rest[k - 1] && lines[k + 1] == rest[k]);
            lines_are_filled(ws, i + 1, indent + ws[i], indent, width, k - 1)
        }
    } else {
        lines_are_filled(ws, i + 1, line.push(' ') + ws[i], indent, width, k)
    }
}

proof fn lemma_first_line(
    ws: Seq<Seq<char>>,
    i: int,
    line: Seq<char>,
    indent: Seq<char>,
    width: int,
)
    requires
        0 <= i,
    ensures
        filled_on(ws, i, line, indent, width).len() > 0,
        line.is_prefix_of(filled_on(ws, i, line, indent, width)[0]),
    decreases ws.len() - i,
{
    if i < ws.len() {
        if text_width(line) + 1 + text_width(ws[i]) > width {
            assert(filled_on(ws, i, line, indent, width)[0] == line);
        } else {
            let more = line.push(' ') + ws[i];
            lemma_first_line(ws, i + 1, more, indent, width);
            assert(line.is_prefix_of(more));
            let first = filled_on(ws, i + 1, more, indent, width)[0];
            assert(first.take(line.len() as int) =~= more.take(line.len() as int));
            assert(line.is_prefix_of(first));
        }
    }
}

/// Without a text width lines are filled to 79 columns.
pub proof fn the_width_filled_to(v: Vim)
    ensures
        v.options.textwidth == 0 ==> format_width(v) == 79,
        0 < v.options.textwidth < usize::MAX ==> format_width(v) == v.options.textwidth,
{
}

} // verus!
