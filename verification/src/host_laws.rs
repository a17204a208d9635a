//! What the hosts keep: snapshots, messages and events.
use crate::doc::Doc;
use crate::edit::{joined_by, on_one_line, Edit, Event};
use crate::editor::{gutter_cell, line_label};
use crate::host::{HostCall, ScrollAnchor};
use crate::key::{char_stroke, ctrl_stroke, Stroke};
use crate::mode::Mode;
use crate::snapshots::{text_in, Desk, Saved, UNDO_LIMIT};
use vstd::prelude::*;

verus! {

// ---- the desk ----------------------------------------------------------------------------

/// The first edit of an undo group keeps the text before it, with the cursor;
/// further edits of the group keep nothing. The oldest snapshot goes when there
/// are too many.
pub proof fn a_group_keeps_one_snapshot(desk: Desk, id: u64, cursor: usize, d: Doc)
    ensures
        ({
            let after = desk.after(HostCall::BeginGroup(id, cursor, d));
            let new = Saved { text: text_in(d), cursor };
            &&& after.group == Some(id)
            &&& desk.group == Some(id) ==> after.undo == desk.undo
            &&& desk.group != Some(id) && desk.undo.len() < UNDO_LIMIT ==> after.undo
                == desk.undo.push(new)
            &&& desk.group != Some(id) && desk.undo.len() == UNDO_LIMIT ==> after.undo
                == desk.undo.push(new).skip(1)
            &&& after.redo == desk.redo
            &&& after.after(HostCall::BeginGroup(id, cursor, d)).undo == after.undo
        }),
{
}

/// An undo takes the newest snapshot off and keeps the text that it replaces for
/// a redo, and a redo does the reverse; both end the open group.
pub proof fn undo_and_redo_exchange(desk: Desk, d: Doc)
    ensures
        ({
            let u = desk.undone(d);
            let r = desk.redone(d);
            &&& desk.undo.len() > 0 ==> u.undo == desk.undo.drop_last() && u.redo.len()
                == desk.redo.len() + 1 && u.redo.last().text == text_in(d) && u.group is None
            &&& desk.undo.len() == 0 ==> u == desk
            &&& desk.redo.len() > 0 ==> r.redo == desk.redo.drop_last() && r.undo.len()
                == desk.undo.len() + 1 && r.undo.last().text == text_in(d) && r.group is None
            &&& desk.redo.len() == 0 ==> r == desk
            &&& desk.undo.len() > 0 ==> u.redone(d).undo.last().text == text_in(d)
        }),
{
}

/// The desk takes note of what it is told: where to scroll, what to highlight,
/// what to copy and what to say. What is copied can be pasted at once.
pub proof fn the_desk_takes_note(
    desk: Desk,
    line: usize,
    anchor: ScrollAnchor,
    text: Seq<char>,
    force: bool,
)
    ensures
        desk.after(HostCall::Scroll(line as int)).scrolled_to == Some(line),
        desk.after(HostCall::ScrollAnchored(line as int, anchor)).scrolled_to == Some(line),
        desk.after(HostCall::Copy(text)).copied == Some(text),
        desk.after(HostCall::Copy(text)).clip == Some(text),
        desk.after(HostCall::Status(text)).status == Some(text),
        desk.after(HostCall::Close(force)).close,
        desk.after(HostCall::Bell).status == desk.status,
        desk.after(HostCall::Bell).undo == desk.undo,
{
}

// ---- the edit box ------------------------------------------------------------------------

/// In Normal mode, when nothing of a command was typed, `u` and `<C-r>` are undo
/// and redo of the box; inside a command and in other modes they are the
/// engine's. Chords of the platform are not for the box.
pub proof fn who_a_key_is_for(e: Edit, key: Stroke)
    ensures
        e.route(true, key) is Pass,
        e.vim.mode == Mode::Normal && e.vim.idle() ==> e.route(false, char_stroke('u')) is Undo
            && e.route(false, ctrl_stroke('r')) is Redo && e.route(false, char_stroke('r'))
            is Engine && e.route(false, ctrl_stroke('u')) is Engine,
        e.vim.mode != Mode::Normal || !e.vim.idle() ==> e.route(false, key) is Engine,
{
}

/// What the engine asked for becomes events: the status text first, then saving,
/// then closing; each of them once.
pub proof fn requests_become_events(e: Edit)
    ensures
        ({
            let after = e.reported();
            let status = match e.host.status {
                Some(s) => seq![Event::Status(s)],
                None => Seq::empty(),
            };
            let save = if e.host.save {
                seq![Event::Save]
            } else {
                Seq::empty()
            };
            let close = if e.host.close {
                seq![Event::Close]
            } else {
                Seq::empty()
            };
            &&& after.events == e.events + status + save + close
            &&& after.host.status is None && !after.host.save && !after.host.close
            &&& after.rows == e.rows
            &&& e.host.copied matches Some(text) ==> after.host.clip == Some(text)
            &&& e.host.copied is None ==> after.host.clip == e.host.clip
        }),
{
    let status = match e.host.status {
        Some(s) => seq![Event::Status(s)],
        None => Seq::empty(),
    };
    let save = if e.host.save {
        seq![Event::Save]
    } else {
        Seq::empty()
    };
    let close = if e.host.close {
        seq![Event::Close]
    } else {
        Seq::empty()
    };
    assert(e.reported().events =~= e.events + status + save + close);
}

/// A change of the text marks the box as modified and is an event of its own;
/// where the text is of the same edition nothing is.
pub proof fn changes_are_noticed(e: Edit, before: u64)
    ensures
        e.edition != before ==> e.noticed(before).modified && e.noticed(before).events
            == e.events.push(Event::Changed),
        e.edition == before ==> e.noticed(before) == e,
{
}

/// The text before a group of edits is kept for undo, unless the group left it
/// as it was; what could be redone is gone then.
pub proof fn the_text_before_is_kept(e: Edit, rows: Seq<Seq<char>>, offset: usize)
    ensures
        rows == e.rows ==> e.remembering(rows, offset) == e,
        rows != e.rows ==> e.remembering(rows, offset).undo.len() == e.undo.len() + 1
            && e.remembering(rows, offset).undo.last().rows == rows && e.remembering(
            rows,
            offset,
        ).redo.len() == 0 && e.remembering(rows, offset).rows == e.rows,
{
}

/// Undo brings back the rows that were kept and keeps the present ones for redo;
/// redo does the reverse. Both end in Normal mode.
pub proof fn the_box_goes_back_and_on(e: Edit)
    ensures
        e.undo.len() > 0 ==> e.undone().rows == e.undo.last().rows && e.undone().undo
            == e.undo.drop_last() && e.undone().redo.len() == e.redo.len() + 1
            && e.undone().redo.last().rows == e.rows && e.undone().vim.mode == Mode::Normal,
        e.undo.len() == 0 ==> e.undone() == e,
        e.redo.len() > 0 ==> e.redone().rows == e.redo.last().rows && e.redone().redo
            == e.redo.drop_last() && e.redone().undo.len() == e.undo.len() + 1
            && e.redone().undo.last().rows == e.rows && e.redone().vim.mode == Mode::Normal,
        e.redo.len() == 0 ==> e.redone() == e,
{
}

/// A box for one line shows its rows with spaces between them, another one with
/// newlines.
pub proof fn rows_are_joined(e: Edit, a: Seq<char>, b: Seq<char>)
    requires
        e.rows == seq![a, b],
    ensures
        e.single_line ==> e.text() == a + seq![' '] + b,
        !e.single_line ==> e.text() == a + seq!['\n'] + b,
{
    let c = if e.single_line {
        ' '
    } else {
        '\n'
    };
    assert(e.rows.drop_last() =~= seq![a]);
    assert(joined_by(e.rows.drop_last(), c) == a);
    assert(joined_by(e.rows, c) =~= a + seq![c] + b);
}

/// Line breaks become spaces in a text for one line, and all else stays.
pub proof fn line_breaks_become_spaces(s: Seq<char>, i: int)
    requires
        0 <= i < s.len(),
    ensures
        on_one_line(s).len() == s.len(),
        s[i] == '\n' || s[i] == '\r' ==> on_one_line(s)[i] == ' ',
        s[i] != '\n' && s[i] != '\r' ==> on_one_line(s)[i] == s[i],
{
}

// ---- the gutter --------------------------------------------------------------------------

/// Lines are numbered from one; with relative numbers a line other than the
/// cursor's shows how far away it is, the same above as below.
pub proof fn lines_are_numbered(line: int, current: int, n: int)
    requires
        n > 0,
    ensures
        line_label(line, current, false) == line + 1,
        line_label(current, current, true) == current + 1,
        line_label(current + n, current, true) == n,
        line_label(current - n, current, true) == n,
{
}

/// A number stands flush right in a gutter of five columns, a space behind it.
pub proof fn numbers_stand_flush_right(label: Seq<char>)
    requires
        label.len() <= 4,
    ensures
        gutter_cell(label).len() == 5,
        gutter_cell(label).last() == ' ',
        gutter_cell(label).subrange(4 - label.len(), 4) == label,
        forall|i: int| 0 <= i < 4 - label.len() ==> #[trigger] gutter_cell(label)[i] == ' ',
{
    assert(gutter_cell(label).subrange(4 - label.len(), 4) =~= label);
}

} // verus!
