//! Which key a keystroke stands for, and what is painted over a line.
use crate::dispatch::core_key;
use crate::doc::Doc;
use crate::key::{Kind, Modifiers};
use crate::mode::{Mode, VisualKind};
use crate::overlay::{hit_quads, quad_for, run_of, runs_of, selection_quads, Paint, Quad};
use crate::state::Vim;
use crate::visual_laws::lines_selected;
use vstd::prelude::*;

verus! {

// ---- keystrokes --------------------------------------------------------------------------

/// A keystroke that types text stands for the first character of it, a chord
/// with control or alt for its base key, and a shifted letter that types nothing
/// for its capital.
pub proof fn keystrokes_stand_for_keys(m: Modifiers, c: char, typed: Seq<char>)
    ensures
        m.control || m.alt ==> core_key(m, seq![c], Some(typed)) == Kind::Char(c),
        m.control || m.alt ==> core_key(m, seq![c], None) == Kind::Char(c),
        !m.control && !m.alt && typed.len() > 0 ==> core_key(m, seq![c], Some(typed)) == Kind::Char(
            typed[0],
        ),
        !m.control && !m.alt && m.shift && 'a' <= c <= 'z' ==> core_key(m, seq![c], None)
            is Char && core_key(m, seq![c], None)->Char_0 as u32 == c as u32 - 32,
        !m.control && !m.alt && !m.shift ==> core_key(m, seq![c], None) == Kind::Char(c),
{
    reveal_strlit("enter");
    reveal_strlit("tab");
    assert("enter"@.len() == 5 && "tab"@.len() == 3);
}

/// A key with a longer name keeps it: Enter and Tab too, though they type a
/// control character.
pub proof fn named_keys_keep_their_names(m: Modifiers, name: Seq<char>)
    requires
        name.len() > 1,
    ensures
        core_key(m, name, None) == Kind::Named(name),
        m.control || m.alt ==> core_key(m, name, Some(seq!['x'])) == Kind::Named(name),
        core_key(m, "enter"@, Some(seq!['\n'])) == Kind::Named("enter"@),
        core_key(m, "enter"@, Some(seq!['\r'])) == Kind::Named("enter"@),
        core_key(m, "tab"@, Some(seq!['\t'])) == Kind::Named("tab"@),
{
    reveal_strlit("enter");
    reveal_strlit("tab");
    assert("enter"@.len() == 5 && "tab"@.len() == 3);
}

// ---- painting ----------------------------------------------------------------------------

/// What a range covers of a line is painted, in bytes from the line's start, and
/// nothing where it does not touch the line.
pub proof fn a_range_is_painted_where_it_lies(a: int, b: int, d: Doc, line: int, color: Paint)
    requires
        d.wf(),
        0 <= line < d.line_count(),
        a <= b,
    ensures
        ({
            let (from, to) = (d.line_start(line), d.line_end(line));
            let lo = if a < from {
                from
            } else {
                a
            };
            let hi = if b > to {
                to
            } else {
                b
            };
            let q = quad_for(a, b, d, line, color);
            &&& lo < hi ==> q == seq![Quad {
                start: lo - from,
                end: hi - from,
                color,
                full_width: false,
            }]
            &&& lo >= hi ==> q.len() == 0
        }),
{
    d.lemma_line_bounds(line);
}

/// Each hit is painted, the one that the cursor is on in a color of its own.
pub proof fn hits_are_painted(
    hits: Seq<(usize, usize)>,
    hit: (usize, usize),
    current: Option<(usize, usize)>,
    d: Doc,
    line: int,
)
    ensures
        hit_quads(Seq::empty(), current, d, line).len() == 0,
        current == Some(hit) ==> hit_quads(hits.push(hit), current, d, line) == hit_quads(
            hits,
            current,
            d,
            line,
        ) + quad_for(hit.0 as int, hit.1 as int, d, line, Paint::SearchCurrent),
        current != Some(hit) ==> hit_quads(hits.push(hit), current, d, line) == hit_quads(
            hits,
            current,
            d,
            line,
        ) + quad_for(hit.0 as int, hit.1 as int, d, line, Paint::Search),
{
    assert(hits.push(hit).drop_last() =~= hits);
}

/// A linewise selection is painted over the full width of each of its lines and
/// of no other; one by characters where it lies; without one nothing is.
pub proof fn selections_are_painted(v: Vim, d: Doc, line: int, anchor: usize)
    requires
        d.wf(),
        0 <= line < d.line_count(),
        anchor <= d.len(),
        v.cursor.offset <= d.len(),
        v.visual_anchor == Some(anchor),
    ensures
        ({
            let (a, b) = (d.line_of(anchor as int), d.line_of(v.cursor.offset as int));
            let (first, last) = if a <= b {
                (a, b)
            } else {
                (b, a)
            };
            let q = selection_quads(v, d, line);
            &&& v.mode == (Mode::Visual { kind: VisualKind::Line }) && d.line_start(first)
                < d.line_stop(first) && d.line_start(last) < d.line_stop(last) ==> {
                &&& first <= line <= last ==> q.len() == 1 && q[0].full_width && q[0].color
                    == Paint::Selection
                &&& !(first <= line <= last) ==> q.len() == 0
            }
            &&& v.mode == (Mode::Visual { kind: VisualKind::Char }) ==> q == quad_for(
                v.selected_span(d)->0.start as int,
                v.selected_span(d)->0.end as int,
                d,
                line,
                Paint::Selection,
            )
            &&& v.mode == Mode::Normal ==> q.len() == 0
        }),
{
    d.lemma_line_of(anchor as int);
    d.lemma_line_of(v.cursor.offset as int);
    let (a, b) = (d.line_of(anchor as int), d.line_of(v.cursor.offset as int));
    let (first, last) = if a <= b {
        (a, b)
    } else {
        (b, a)
    };
    reveal(Vim::selected_span);
    if v.mode == (Mode::Visual { kind: VisualKind::Line }) {
        lines_selected(v, d, anchor);
        d.lemma_line_bounds(first);
        d.lemma_line_bounds(last);
        if d.line_start(first) < d.line_stop(first) && d.line_start(last) < d.line_stop(last) {
            d.lemma_line_of_unique(d.line_start(first), first);
            d.lemma_line_of_unique(d.line_stop(last) - 1, last);
            if first < last {
                assert(d.starts[first] < d.starts[last]);
            }
        }
    }
}

/// A line is cut up into runs that cover all of it, the character under a block
/// cursor, and it alone, inverted.
pub proof fn runs_cover_the_line(len: int, inverted: Option<(usize, usize)>)
    requires
        len >= 0,
        inverted matches Some((a, b)) ==> a < b <= len,
    ensures
        lengths(runs_of(len, inverted)) == len,
        inverted is None ==> forall|i: int|
            0 <= i < runs_of(len, inverted).len() ==> !(#[trigger] runs_of(len, inverted)[i]).1,
        inverted matches Some((a, b)) ==> {
            let r = runs_of(len, inverted);
            let k = if a > 0 {
                1int
            } else {
                0
            };
            &&& k < r.len()
            &&& r[k] == ((b - a) as int, true)
            &&& k == 1 ==> r[0] == (a as int, false)
            &&& forall|i: int| 0 <= i < r.len() && i != k ==> !(#[trigger] r[i]).1
        },
{
    let none = Seq::<(int, bool)>::empty();
    assert(lengths(none) == 0);
    match inverted {
        Some((a, b)) => {
            let x = run_of(a as int, false);
            let y = run_of(b - a, true);
            let z = run_of(len - b, false);
            lemma_lengths(x + y, z);
            lemma_lengths(x, y);
            lemma_run(a as int, false);
            lemma_run(b - a, true);
            lemma_run(len - b, false);
        },
        None => {
            lemma_run(len, false);
        },
    }
}

/// What the runs come to.
pub open spec fn lengths(runs: Seq<(int, bool)>) -> int
    decreases runs.len(),
{
    if runs.len() == 0 {
        0
    } else {
        lengths(runs.drop_last()) + runs.last().0
    }
}

proof fn lemma_run(len: int, inverted: bool)
    ensures
        lengths(run_of(len, inverted)) == if len > 0 {
            len
        } else {
            0
        },
{
    let r = run_of(len, inverted);
    if len > 0 {
        assert(r.drop_last() =~= Seq::empty());
        assert(lengths(r.drop_last()) == 0);
    }
}

proof fn lemma_lengths(a: Seq<(int, bool)>, b: Seq<(int, bool)>)
    ensures
        lengths(a + b) == lengths(a) + lengths(b),
    decreases b.len(),
{
    if b.len() == 0 {
        assert(a + b =~= a);
    } else {
        lemma_lengths(a, b.drop_last());
        assert((a + b).drop_last() =~= a + b.drop_last());
    }
}

} // verus!
