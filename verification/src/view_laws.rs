//! What the widgets show: selections, carets and hits, row by row.
use crate::api::notations;
use crate::buffer::VimBuffer;
use crate::cells::width;
use crate::doc::Doc;
use crate::edit::{Edit, Input};
use crate::editor::Pane;
use crate::engine::new_vim;
use crate::key::{char_stroke, Stroke};
use crate::lines::rc_of;
use crate::mode::{Mode, VisualKind};
use crate::objects::alias_pair;
use crate::ops::Operator;
use crate::pager::Pager;
use crate::state::Vim;
use crate::strs::decimal;
use crate::text::{boundaries_come_back_from_utf16, lemma_floor_in};
use vstd::prelude::*;

verus! {

// ---- rows of the edit box ------------------------------------------------------------------

/// A selection by characters covers a row from where it begins to where it ends,
/// the last character included: all of a row between its ends, and nothing of
/// one before or behind.
pub proof fn rows_of_a_selection(e: Edit, anchor: usize, row: int)
    requires
        e.vim.mode == (Mode::Visual { kind: VisualKind::Char }),
        e.vim.visual_anchor == Some(anchor),
        rc_of(e.rows, anchor as int).0 <= rc_of(e.rows, e.vim.cursor.offset as int).0,
    ensures
        ({
            let (top, from) = rc_of(e.rows, anchor as int);
            let (bottom, to) = rc_of(e.rows, e.vim.cursor.offset as int);
            let len = e.row_len(row);
            let s = e.selection_span(row);
            &&& row < top || row > bottom ==> s is None
            &&& top < row < bottom && len >= 0 ==> s == Some((0int, len))
            &&& top == row < bottom && from <= len ==> s == Some((from, len))
            &&& top < row == bottom && to < len ==> s == Some((0int, to + 1))
            &&& top == row == bottom && from <= to < len ==> s == Some((from, to + 1))
        }),
{
}

/// A selection by lines covers each of its rows from end to end, and a block the
/// same columns of each.
pub proof fn rows_of_lines_and_blocks(e: Edit, anchor: usize, row: int)
    requires
        e.vim.visual_anchor == Some(anchor),
    ensures
        ({
            let (a, c) = (rc_of(e.rows, anchor as int), rc_of(e.rows, e.vim.cursor.offset as int));
            let inside = (a.0 <= row <= c.0) || (c.0 <= row <= a.0);
            let s = e.selection_span(row);
            &&& e.vim.mode == (Mode::Visual { kind: VisualKind::Line }) ==> (if inside {
                s == Some((0int, e.row_len(row)))
            } else {
                s is None
            })
            &&& e.vim.mode == (Mode::Visual { kind: VisualKind::Block }) && a.1 <= c.1 < usize::MAX
                ==> (if inside {
                s == Some((a.1, c.1 + 1))
            } else {
                s is None
            })
            &&& e.vim.mode == Mode::Normal ==> s is None
        }),
{
}

/// The caret is shown on the cursor's row, over the character at its column, and
/// only while the box has the focus.
pub proof fn the_caret_is_shown(e: Edit, row: int)
    ensures
        ({
            let (at, col) = rc_of(e.rows, e.vim.cursor.offset as int);
            &&& e.caret_on(row, false) is None
            &&& row != at ==> e.caret_on(row, true) is None
            &&& row == at && 0 <= row < e.rows.len() && 0 <= col < e.rows[row].len() ==> e.caret_on(
                row,
                true,
            ) == Some((col, Some(e.rows[row][col])))
            &&& row == at && 0 <= row < e.rows.len() && col >= e.rows[row].len() ==> e.caret_on(
                row,
                true,
            ) == Some((col, None::<char>))
        }),
{
}

/// A hit within a row covers its columns, one at least; one that goes on in
/// another row covers the rest of its own.
pub proof fn hits_cover_their_columns(e: Edit, hit: (usize, usize))
    requires
        rc_of(e.rows, hit.0 as int).1 < usize::MAX,
    ensures
        ({
            let (row, col) = rc_of(e.rows, hit.0 as int);
            let (row2, col2) = rc_of(e.rows, hit.1 as int);
            let (at, from, to) = e.hit_span(hit);
            &&& at == row && from == col && to > from
            &&& row2 == row && col2 > col ==> to == col2
            &&& row2 != row && e.row_len(row) > col ==> to == e.row_len(row)
        }),
{
}

/// The hits on a row are those that start in it, in order.
pub proof fn hits_stay_on_their_row(e: Edit, row: int, n: nat)
    requires
        n < e.host.highlights.len(),
    ensures
        ({
            let (at, from, to) = e.hit_span(e.host.highlights[n as int]);
            &&& e.hits_on(row, 0).len() == 0
            &&& at == row ==> e.hits_on(row, n + 1) == e.hits_on(row, n).push(
                (from, to, e.is_current(row, from)),
            )
            &&& at != row ==> e.hits_on(row, n + 1) == e.hits_on(row, n)
        }),
{
}

/// As many rows are painted as are seen, and one more; all of them before
/// anything is measured.
pub proof fn the_rows_painted(e: Edit, first: int, n: usize)
    requires
        0 <= first <= e.rows.len(),
        !e.single_line,
    ensures
        e.window(first, None) == (0int, e.rows.len() as int),
        e.window(first, Some(n)).0 == first,
        first + n + 1 <= e.rows.len() ==> e.window(first, Some(n)).1 == first + n + 1,
        first + n + 1 > e.rows.len() ==> e.window(first, Some(n)).1 == e.rows.len(),
{
}

/// A drag that selected nothing ends in Normal mode; one that did keeps its
/// selection.
pub proof fn a_drag_ends(e: Edit, anchor: usize, kind: VisualKind)
    requires
        e.selecting,
        e.vim.mode == (Mode::Visual { kind }),
        e.vim.visual_anchor == Some(anchor),
    ensures
        !e.released().selecting,
        anchor == e.vim.cursor.offset ==> e.released().vim.mode == Mode::Normal,
        anchor != e.vim.cursor.offset ==> e.released().vim == e.vim,
{
}

/// Text that an input method hands over replaces what it was composing; a range
/// that it names is replaced in the insert modes only, and else it is typed.
pub proof fn what_input_does(e: Edit, text: Seq<char>, a: usize, b: usize)
    ensures
        e.marked is None ==> e.input(None, text) is Type,
        e.marked == Some((a, b)) && text.len() > 0 && a < b ==> e.input(None, text)
            == Input::Commit(a, b),
        e.marked == Some((a, b)) && text.len() == 0 ==> e.input(None, text) is Type,
        e.byte_of(a as int) < e.byte_of(b as int) && e.vim.mode == Mode::Insert ==> e.input(
            Some((a, b)),
            text,
        ) == Input::Replace(e.byte_of(a as int), e.byte_of(b as int)),
        e.byte_of(a as int) < e.byte_of(b as int) && e.vim.mode == Mode::Normal ==> e.input(
            Some((a, b)),
            text,
        ) is Ignore,
{
}

// ---- clicks --------------------------------------------------------------------------------

/// A click puts the cursor where it was, but not behind the text nor behind its
/// line. While selecting, the selection begins anew there.
pub proof fn a_click_moves_the_cursor(v: Vim, d: Doc, o: int)
    requires
        d.wf(),
        0 <= o,
    ensures
        ({
            let after = v.clicked(d, o);
            let at = after.cursor.offset as int;
            &&& o <= d.len() && o <= d.line_end(d.line_of(o)) ==> at == o
            &&& o > d.len() ==> at <= d.len()
            &&& at <= d.line_end(d.line_of(at))
            &&& after.cursor.desired_col is None
            &&& v.mode is Visual ==> after.visual_anchor == Some(after.cursor.offset)
            &&& !(v.mode is Visual) ==> after.visual_anchor == v.visual_anchor
            &&& after.mode == v.mode
        }),
{
    let c = if o <= d.len() {
        o
    } else {
        d.len()
    };
    d.lemma_clamp(c);
    d.lemma_line_of(c);
    d.lemma_line_bounds(d.line_of(c));
}

/// A drag selects from where it began to where it is, by characters unless a
/// selection of another kind is being made.
pub proof fn a_drag_selects(v: Vim, d: Doc, anchor: int, cursor: int)
    requires
        d.wf(),
        0 <= anchor <= d.line_end(d.line_of(anchor)),
        0 <= cursor <= d.line_end(d.line_of(cursor)),
        anchor <= d.len(),
        cursor <= d.len(),
    ensures
        ({
            let after = v.dragged(d, anchor, cursor);
            &&& after.visual_anchor == Some(anchor as usize)
            &&& after.cursor.offset == cursor
            &&& v.mode is Visual ==> after.mode == v.mode
            &&& !(v.mode is Visual) ==> after.mode == (Mode::Visual { kind: VisualKind::Char })
        }),
{
}

// ---- the pager and the editor --------------------------------------------------------------

/// The editor and the pager show a selection by characters from its first to the
/// last one, which is included.
pub proof fn selections_of_the_editor(p: Pane, anchor: usize)
    requires
        p.vim.mode == (Mode::Visual { kind: VisualKind::Char }),
        p.vim.visual_anchor == Some(anchor),
        anchor <= p.vim.cursor.offset,
    ensures
        ({
            let hi = p.vim.cursor.offset as int;
            p.selection_span() == Some(
                (
                    anchor as int,
                    match p.doc().char_at(hi) {
                        Some(c) => hi + width(c),
                        None => hi,
                    },
                    false,
                ),
            )
        }),
{
}

/// A linewise selection of the editor covers its lines whole.
pub proof fn lines_of_the_editor(p: Pane, anchor: usize)
    requires
        p.vim.mode == (Mode::Visual { kind: VisualKind::Line }),
        p.vim.visual_anchor == Some(anchor),
        anchor <= p.vim.cursor.offset,
    ensures
        p.selection_span() == Some(
            (
                p.doc().line_start(p.doc().line_of(anchor as int)),
                p.doc().line_stop(p.doc().line_of(p.vim.cursor.offset as int)),
                true,
            ),
        ),
{
}

/// A pager that is not active has no selection; else one by characters reaches
/// from its first character to the end of its last.
pub proof fn selections_of_the_pager(p: Pager, anchor: usize)
    requires
        p.vim@.mode == (Mode::Visual { kind: VisualKind::Char }),
        p.vim@.visual_anchor == Some(anchor),
        anchor <= p.vim@.cursor.offset <= p.buf.doc().len(),
        p.buf.doc().wf(),
        p.buf.doc().at_boundary(anchor as int),
        p.buf.doc().at_boundary(p.vim@.cursor.offset as int),
    ensures
        !p.active ==> p.selected() is None,
        p.active ==> p.selected() == Some(
            (
                anchor as int,
                match p.buf.doc().char_at(p.vim@.cursor.offset as int) {
                    Some(c) => p.vim@.cursor.offset + width(c),
                    None => p.vim@.cursor.offset as int,
                },
                false,
            ),
        ),
{
    lemma_floor_in(p.buf.doc().cells, anchor as int);
    lemma_floor_in(p.buf.doc().cells, p.vim@.cursor.offset as int);
}

/// A byte offset of the editor's text comes back from its UTF-16 offset.
pub proof fn utf16_offsets_come_back(p: Pane, b: int)
    requires
        p.doc().wf(),
        0 <= b <= p.doc().len(),
        p.doc().at_boundary(b),
    ensures
        p.byte_of(p.utf16_of(b)) == b,
{
    lemma_floor_in(p.doc().cells, b);
    boundaries_come_back_from_utf16(p.doc().cells, b);
}

/// The status bar counts lines from one and columns from zero.
pub proof fn the_status_bar_counts(p: Pane, line: int)
    requires
        p.doc().wf(),
        0 <= line < p.doc().line_count(),
        p.doc().line_of(p.vim.cursor.offset as int) == line,
    ensures
        p.line_col() == (line + 1, p.vim.cursor.offset - p.doc().line_start(line)),
{
}

// ---- what is pending -----------------------------------------------------------------------

/// What is typed of a command is shown as it was typed: the register, the count,
/// the operator, and then the keys.
pub proof fn pending_input_is_shown(v: Vim, r: char, n: usize, key: char)
    requires
        v.mode == Mode::Normal,
        v.register == Some(r),
        v.count == Some(n),
        v.op == Some(Operator::Delete),
        v.cmd_seq == seq![char_stroke(key)],
        v.char_arg_cmd is None,
    ensures
        v.pending_text() == seq!['"', r] + decimal(n as int) + seq!['d'] + seq![key],
{
    reveal_strlit("d");
    assert("d"@ =~= seq!['d']);
    let keys = seq![char_stroke(key)];
    assert(keys.drop_last() =~= Seq::<Stroke>::empty());
    assert(notations(keys.drop_last()) =~= Seq::<char>::empty());
    assert(char_stroke(key).notation() =~= seq![key]);
    assert(notations(keys) =~= seq![key]);
    assert(v.pending_text() =~= seq!['"', r] + decimal(n as int) + seq!['d'] + seq![key]);
}

/// Where nothing waits and nothing is selected, nothing is shown.
pub proof fn nothing_pending_is_shown(v: Vim)
    requires
        v.mode == Mode::Normal,
        v.idle(),
    ensures
        v.pending_text().len() == 0,
{
}

/// `b` names the block of parentheses and `B` that of braces.
pub proof fn blocks_have_aliases(c: char)
    ensures
        alias_pair('b') == Some(('(', ')')),
        alias_pair('B') == Some(('{', '}')),
        c != 'b' && c != 'B' ==> alias_pair(c) is None,
{
}

/// A fresh engine is in Normal mode at the beginning of the text: it remembers
/// nothing, and nothing waits.
pub proof fn a_fresh_engine(c: char, keys: Seq<Stroke>)
    ensures
        ({
            let v = new_vim();
            &&& v.mode == Mode::Normal
            &&& v.cursor.offset == 0
            &&& v.idle()
            &&& v.registers.slot(c) is None
            &&& v.marks.resolved(c) is None
            &&& v.search.pattern is None
            &&& v.macro_for(c) is None
            &&& (v.keymaps.normal)(keys) is None && (v.keymaps.visual)(keys) is None && (
            v.keymaps.insert)(keys) is None
            &&& v.jumps.len() == 0 && v.changes.len() == 0
            &&& v.last_change.len() == 0
            &&& v.selection() is None
        }),
{
}

} // verus!
