//! What a selection covers, and what marks and lists remember.
use crate::cells::width;
use crate::doc::Doc;
use crate::lists::LIST_LIMIT;
use crate::marks::MarkSet;
use crate::mode::{Mode, VisualKind};
use crate::normal::{can_step, list_pos};
use crate::operators::lemma_line_order;
use crate::ops::OpSpan;
use crate::shift::Shift;
use crate::state::{Vim, World};
use vstd::prelude::*;

verus! {

// ---- selections --------------------------------------------------------------------------

/// A selection is being made from `anchor` to the cursor.
pub open spec fn selecting(v: Vim, anchor: usize, kind: VisualKind) -> bool {
    v.mode == (Mode::Visual { kind }) && v.visual_anchor == Some(anchor)
}

/// A selection by characters covers those from its one end to its other, both
/// included, whichever of them the cursor is at.
pub proof fn characters_selected(v: Vim, d: Doc, anchor: usize)
    requires
        d.wf(),
        selecting(v, anchor, VisualKind::Char),
        v.cursor.offset <= d.len(),
        anchor <= d.len(),
    ensures
        ({
            let lo = if anchor <= v.cursor.offset {
                anchor
            } else {
                v.cursor.offset
            };
            let hi = if anchor <= v.cursor.offset {
                v.cursor.offset
            } else {
                anchor
            };
            let s = v.selected_span(d);
            &&& s is Some
            &&& !s->0.linewise
            &&& s->0.start == lo
            &&& s->0.end == match d.char_at(hi as int) {
                Some(c) => hi + width(c),
                None => hi as int,
            }
        }),
{
    reveal(Vim::selected_span);
    d.lemma_char_fits(anchor as int);
    d.lemma_char_fits(v.cursor.offset as int);
}

/// A selection by lines covers the whole lines from the one of its first end to
/// the one of its last.
pub proof fn lines_selected(v: Vim, d: Doc, anchor: usize)
    requires
        d.wf(),
        selecting(v, anchor, VisualKind::Line),
        v.cursor.offset <= d.len(),
        anchor <= d.len(),
    ensures
        ({
            let (a, b) = (d.line_of(anchor as int), d.line_of(v.cursor.offset as int));
            let first = if a <= b {
                a
            } else {
                b
            };
            let last = if a <= b {
                b
            } else {
                a
            };
            v.selected_span(d) == Some(
                OpSpan {
                    start: d.line_start(first) as usize,
                    end: d.line_stop(last) as usize,
                    linewise: true,
                },
            )
        }),
{
    reveal(Vim::selected_span);
    if anchor <= v.cursor.offset {
        lemma_line_order(d, anchor as int, v.cursor.offset as int);
    } else {
        lemma_line_order(d, v.cursor.offset as int, anchor as int);
    }
}

/// A selection begins at the cursor, with nothing but the character there.
pub proof fn a_selection_begins_at_the_cursor(v: Vim, kind: VisualKind)
    ensures
        selecting(v.enter_visual(kind), v.cursor.offset, kind),
        v.enter_visual(kind).cursor == v.cursor,
{
}

/// A selection that is left puts the cursor at its front and is remembered: in
/// the marks `<` and `>`, and with its kind for `gv`.
pub proof fn a_selection_is_remembered(v: Vim, anchor: usize, kind: VisualKind)
    requires
        selecting(v, anchor, kind),
        anchor < usize::MAX,
        v.cursor.offset < usize::MAX,
    ensures
        ({
            let lo = if anchor <= v.cursor.offset {
                anchor
            } else {
                v.cursor.offset
            };
            let hi = if anchor <= v.cursor.offset {
                v.cursor.offset
            } else {
                anchor
            };
            let after = v.exit_visual();
            &&& after.mode == Mode::Normal
            &&& after.visual_anchor is None
            &&& after.cursor.offset == lo
            &&& after.last_visual == Some((lo, (hi + 1) as usize, kind))
            &&& after.marks.resolved('<') == Some(lo)
            &&& after.marks.resolved('>') == Some((hi + 1) as usize)
        }),
{
    reveal(Vim::exit_visual);
}

/// `v`, `V` and `<C-v>` while selecting change the kind of the selection, and
/// the key of its own kind leaves it. The selection's ends stay.
pub proof fn kinds_are_changed(w: World, anchor: usize, kind: VisualKind)
    requires
        selecting(w.vim, anchor, kind),
    ensures
        kind != VisualKind::Char ==> selecting(w.toggle_kind('v').vim, anchor, VisualKind::Char)
            && w.toggle_kind('v').vim.cursor == w.vim.cursor,
        kind != VisualKind::Line ==> selecting(w.toggle_kind('V').vim, anchor, VisualKind::Line)
            && w.toggle_kind('V').vim.cursor == w.vim.cursor,
        kind != VisualKind::Block ==> selecting(w.toggle_kind('b').vim, anchor, VisualKind::Block)
            && w.toggle_kind('b').vim.cursor == w.vim.cursor,
        kind == VisualKind::Char ==> w.toggle_kind('v').vim.mode == Mode::Normal,
        kind == VisualKind::Line ==> w.toggle_kind('V').vim.mode == Mode::Normal,
        kind == VisualKind::Block ==> w.toggle_kind('b').vim.mode == Mode::Normal,
{
    reveal(Vim::exit_visual);
}

/// A text object that is selected is covered from its first character to its
/// last.
pub proof fn an_object_is_selected(w: World, s: OpSpan)
    requires
        w.doc.wf(),
        s.start < s.end <= w.doc.len(),
        w.doc.at_boundary(s.end as int),
    ensures
        ({
            let after = w.select_object(s);
            &&& after.vim.visual_anchor == Some(s.start)
            &&& after.doc == w.doc
            &&& after.cursor() < s.end
            &&& w.doc.char_at(after.cursor()) is Some
            &&& after.cursor() + width(w.doc.char_at(after.cursor())->0) == s.end
        }),
{
    reveal(World::select_object);
    w.doc.lemma_prev(s.end as int);
}

// ---- marks -------------------------------------------------------------------------------

/// A mark that is set under a letter is found there, and all others stay.
pub proof fn a_mark_is_found_again(m: MarkSet, name: char, offset: usize, other: char)
    requires
        'a' <= name <= 'z' || 'A' <= name <= 'Z',
    ensures
        m.with_mark(name, offset).resolved(name) == Some(offset),
        other != name ==> m.with_mark(name, offset).resolved(other) == m.resolved(other),
{
}

/// A jump to a mark goes to its place, or to the first non-blank of its line;
/// never behind the text. Where no mark is set the cursor stays.
pub proof fn a_jump_goes_to_the_mark(w: World, name: char)
    requires
        w.doc.wf(),
    ensures
        ({
            let exact = w.jump_to_mark(name, false);
            let line = w.jump_to_mark(name, true);
            match w.vim.marks.resolved(name) {
                Some(o) => {
                    let at = if o <= w.doc.len() {
                        o as int
                    } else {
                        w.doc.len()
                    };
                    &&& exact.cursor() == at
                    &&& line.cursor() == w.doc.first_non_blank(w.doc.line_of(at))
                    &&& exact.doc == w.doc && line.doc == w.doc
                },
                None => exact.vim.cursor == w.vim.cursor && line.vim.cursor == w.vim.cursor,
            }
        }),
{
    reveal(World::jump_to_mark);
    reveal(Vim::record_jump);
    if let Some(o) = w.vim.marks.resolved(name) {
        let at = if o <= w.doc.len() {
            o as int
        } else {
            w.doc.len()
        };
        w.doc.lemma_line_of(at);
        w.doc.lemma_first_non_blank(w.doc.line_of(at));
        w.doc.lemma_line_bounds(w.doc.line_of(at));
    }
}

/// A mark stays with its text: behind an insertion it moves by as much, behind a
/// deletion back by as much; one in what is deleted goes to where it was, and
/// one before stays.
pub proof fn marks_stay_with_their_text(m: MarkSet, name: char, at: usize, p: usize, n: usize)
    requires
        m.mark(name) == Some(at),
        at + n <= usize::MAX,
        p + n <= usize::MAX,
    ensures
        ({
            let inserted = m.moved(Shift::Insert { at: p, len: n }).mark(name);
            let deleted = m.moved(Shift::Delete { start: p, end: (p + n) as usize }).mark(name);
            &&& at > p ==> inserted == Some((at + n) as usize)
            &&& at <= p ==> inserted == Some(at)
            &&& at <= p ==> deleted == Some(at)
            &&& p < at < p + n ==> deleted == Some(p)
            &&& at >= p + n ==> deleted == Some((at - n) as usize)
        }),
{
}

// ---- lists -------------------------------------------------------------------------------

/// `g;` goes `count` changes back and `g,` as many on, to the oldest or newest
/// when there are not so many.
pub proof fn changes_are_walked(w: World, n: int)
    requires
        w.doc.wf(),
        n >= 1,
        w.vim.changes.len() > 0,
        w.vim.change_pos < w.vim.changes.len(),
        w.vim.changes.len() <= usize::MAX,
    ensures
        ({
            let pos = w.vim.change_pos as int;
            let len = w.vim.changes.len() as int;
            let back = w.step_changes(n, true);
            let on = w.step_changes(n, false);
            &&& back.vim.change_pos == if n <= pos {
                pos - n
            } else {
                0
            }
            &&& on.vim.change_pos == if pos + n < len {
                pos + n
            } else {
                len - 1
            }
            &&& back.cursor() == in_text(w.doc, w.vim.changes[back.vim.change_pos as int] as int)
            &&& on.cursor() == in_text(w.doc, w.vim.changes[on.vim.change_pos as int] as int)
            &&& back.doc == w.doc && on.doc == w.doc
        }),
{
    reveal(World::step_changes);
    reveal(World::show_change);
    reveal(World::fail);
    let pos = w.vim.change_pos as int;
    let len = w.vim.changes.len() as int;
    let a = w.vim.changes[if n <= pos {
        pos - n
    } else {
        0
    }] as int;
    let b = w.vim.changes[if pos + n < len {
        pos + n
    } else {
        len - 1
    }] as int;
    lemma_in_text(w.doc, a);
    lemma_in_text(w.doc, b);
}

/// An offset that is remembered, in the text as it is now: not behind it, and
/// not behind its line.
pub open spec fn in_text(d: Doc, o: int) -> int {
    if o <= d.len() {
        d.clamp(o)
    } else {
        d.clamp(d.len())
    }
}

proof fn lemma_in_text(d: Doc, o: int)
    requires
        d.wf(),
        o >= 0,
    ensures
        0 <= in_text(d, o) <= d.len(),
{
    d.lemma_clamp(o);
    d.lemma_clamp(d.len());
}

/// `<C-o>` goes one entry back in the jumplist and `<C-i>` one on, where there
/// is one.
pub proof fn jumps_are_walked(w: World)
    requires
        w.doc.wf(),
        w.vim.jumps.len() > 0,
        w.vim.jump_pos < w.vim.jumps.len(),
        w.vim.jumps.len() <= usize::MAX,
    ensures
        ({
            let pos = w.vim.jump_pos as int;
            let back = w.step_jumps(1, true);
            let on = w.step_jumps(1, false);
            &&& pos > 0 ==> back.vim.jump_pos == pos - 1 && back.cursor() == w.doc.clamp(
                w.vim.jumps[pos - 1] as int,
            )
            &&& pos + 1 < w.vim.jumps.len() ==> on.vim.jump_pos == pos + 1 && on.cursor()
                == w.doc.clamp(w.vim.jumps[pos + 1] as int)
            &&& pos == 0 ==> back.vim.cursor == w.vim.cursor
            &&& pos + 1 == w.vim.jumps.len() ==> on.vim.cursor == w.vim.cursor
        }),
{
    lemma_one_jump(w, true);
    lemma_one_jump(w, false);
}

proof fn lemma_one_jump(w: World, back: bool)
    requires
        w.doc.wf(),
        w.vim.jump_pos < w.vim.jumps.len() <= usize::MAX,
    ensures
        ({
            let pos = w.vim.jump_pos as int;
            let to = if back {
                pos - 1
            } else {
                pos + 1
            };
            let after = w.step_jumps(1, back);
            &&& 0 <= to < w.vim.jumps.len() ==> after.vim.jump_pos == to && after.cursor()
                == w.doc.clamp(w.vim.jumps[to] as int)
            &&& !(0 <= to < w.vim.jumps.len()) ==> after.vim.cursor == w.vim.cursor
        }),
{
    let pos = w.vim.jump_pos as int;
    let len = w.vim.jumps.len() as int;
    let to = if back {
        pos - 1
    } else {
        pos + 1
    };
    if 0 <= to < len {
        assert(can_step(len, pos, 1, back));
        assert(list_pos(len, pos, 1, back) == to);
        let b = w.step_jump(back);
        assert(w.step_jumps(1, back) == b.step_jumps(0, back));
        assert(b.step_jumps(0, back) == b);
        w.doc.lemma_clamp(w.vim.jumps[to] as int);
        reveal(World::step_jump);
    } else {
        assert(!can_step(len, pos, 1, back));
    }
}

/// A jump is noted behind the entry that the list was at: what lay further on is
/// dropped, and where the jump came from and where it went end the list.
pub proof fn a_jump_is_noted(v: Vim, origin: usize, dest: usize)
    requires
        v.jump_pos < v.jumps.len(),
        v.jump_pos + 3 <= LIST_LIMIT,
        origin != dest,
        v.jumps[v.jump_pos as int] != origin,
    ensures
        v.record_jump(origin, dest).jumps == v.jumps.take(v.jump_pos + 1).push(origin).push(dest),
        v.record_jump(origin, dest).jump_pos == v.jump_pos + 2,
        v.record_jump(origin, dest).cursor == v.cursor,
{
    reveal(Vim::record_jump);
    let cut = v.jumps.take(v.jump_pos + 1);
    if v.jump_pos + 1 == v.jumps.len() {
        assert(cut =~= v.jumps);
    }
    assert(cut.last() == v.jumps[v.jump_pos as int]);
}

/// A change is noted once, behind the entry that the list was at.
pub proof fn a_change_is_noted(v: Vim)
    requires
        v.change_pos < v.changes.len(),
        v.change_pos + 2 <= LIST_LIMIT,
    ensures
        v.changes.last() == v.cursor.offset ==> v.note_change().changes == v.changes,
        v.changes.last() != v.cursor.offset ==> v.note_change().changes == v.changes.take(
            v.change_pos + 1,
        ).push(v.cursor.offset) && v.note_change().change_pos == v.change_pos + 1,
        v.note_change().marks.last_change == Some(v.cursor.offset),
{
    reveal(Vim::note_change);
    let cut = v.changes.take(v.change_pos + 1);
    if v.change_pos + 1 == v.changes.len() {
        assert(cut =~= v.changes);
    }
}

} // verus!
