//! What an operator takes: up to where a motion lands, or a text object.
use crate::buffer::VimBufferMut;
use crate::cells::width;
use crate::chars::white;
use crate::doc::Doc;
use crate::edit_laws::{
    change_deletes_and_inserts, delete_takes_the_span_out, held, lemma_begun, lemma_bumped,
    same_text, text_replaced, yank_keeps_the_text,
};
use crate::join_laws::{newline_buffer, on_lines};
use crate::mode::Mode;
use crate::motions::{landing, searched, Motion, MotionKind, MotionResult};
use crate::object_laws::{a_paragraph_is_a_block_of_lines, lemma_scanned};
use crate::objects::TextObject;
use crate::ops::{motion_span, object_span_at, OpSpan, Operator};
use crate::sentence_laws::{
    begins_sentence, full_stop, inked, sentence_back_is_the_last_one, sentence_on_is_the_next_one,
};
use crate::state::{Vim, World};
use crate::word::{not_blank, scan, sentence_after, sentence_before};
use vstd::prelude::*;

verus! {

// ---- spans -------------------------------------------------------------------------------

/// Within a line an operator takes what lies between the cursor and where an
/// exclusive motion lands, and with an inclusive motion the last character too.
pub proof fn a_motion_within_a_line(d: Doc, start: int, m: Motion, r: MotionResult)
    requires
        d.wf(),
        0 <= start <= d.line_end(d.line_of(start)),
        d.line_of(r.offset as int) == d.line_of(start),
        r.offset <= d.line_end(d.line_of(start)),
    ensures
        ({
            let to = r.offset as int;
            let (lo, hi) = if start <= to {
                (start, to)
            } else {
                (to, start)
            };
            let s = motion_span(d, start, m, r);
            &&& r.kind == MotionKind::Exclusive ==> s.start == lo && s.end == hi && !s.linewise
            &&& r.kind == MotionKind::Inclusive ==> s.start == lo && !s.linewise && s.end
                == match d.char_at(hi) {
                Some(c) => hi + width(c),
                None => hi,
            }
            &&& r.kind == MotionKind::Linewise ==> s.linewise && s.start == d.line_start(
                d.line_of(start),
            ) && s.end == d.line_stop(d.line_of(start))
        }),
{
    d.lemma_line_of(start);
    d.lemma_line_bounds(d.line_of(start));
    d.lemma_char_fits(start);
    d.lemma_char_fits(r.offset as int);
}

/// A linewise motion takes all lines from the cursor's to the one that it lands
/// in, whole.
pub proof fn a_motion_over_lines(d: Doc, start: int, m: Motion, r: MotionResult)
    requires
        d.wf(),
        0 <= start <= d.len(),
        r.offset <= d.len(),
        r.kind == MotionKind::Linewise,
    ensures
        ({
            let (a, b) = (d.line_of(start), d.line_of(r.offset as int));
            let (first, last) = if a <= b {
                (a, b)
            } else {
                (b, a)
            };
            let s = motion_span(d, start, m, r);
            &&& s.linewise
            &&& s.start == d.line_start(first)
            &&& s.end == d.line_stop(last)
        }),
{
    d.lemma_line_of(start);
    d.lemma_line_of(r.offset as int);
    d.lemma_clamp(r.offset as int);
    d.lemma_line_bounds(d.line_of(start));
    d.lemma_line_bounds(d.line_of(r.offset as int));
}

// ---- operators that wait -------------------------------------------------------------------

/// The operator that waits is applied to what it is given, with the register
/// that was named, and waits no longer.
pub proof fn a_waiting_operator_is_applied<B: VimBufferMut>(w: World, op: Operator, s: OpSpan)
    requires
        w.vim.op == Some(op),
    ensures
        ({
            let after = w.complete_operator::<B>(s);
            let given = w.with_vim(Vim { op: None, op_count: None, ..w.vim }).begin_edit();
            let applied = given.apply::<B>(op, s, w.vim.register);
            &&& same_text(given, w)
            &&& after.doc == applied.doc
            &&& after.vim.cursor == applied.vim.cursor
            &&& after.vim.registers == applied.vim.registers
            &&& after.vim.mode == applied.vim.mode
            &&& after.vim.op is None
            &&& after.vim.count is None
            &&& after.vim.register is None
        }),
{
    reveal(World::complete_operator);
    reveal(Vim::commit_record);
    let u = w.with_vim(Vim { op: None, op_count: None, ..w.vim });
    lemma_begun(u);
    let b = u.begin_edit();
    let a = b.apply::<B>(op, s, b.vim.register);
    lemma_bumped::<B>(a.close_edit());
    lemma_bumped::<B>(a);
}

/// An operator with a text object takes what the object covers: `d` deletes it,
/// `y` yanks it and `c` begins to insert in its place.
pub proof fn an_operator_takes_an_object<B: VimBufferMut>(w: World, object: TextObject, s: OpSpan)
    requires
        newline_buffer::<B>(),
        on_lines(w),
        w.doc.len() < usize::MAX,
        w.cursor() <= w.doc.line_end(w.line()),
        !(w.vim.mode is Visual),
        object_span_at(w.doc, w.cursor(), object) == Some(s),
        s.start < s.end,
        w.doc.is_range(s.start as int, s.end as int),
    ensures
        ({
            let after = w.object_command::<B>(object);
            &&& w.vim.op == Some(Operator::Delete) ==> text_replaced(
                w.doc,
                after.doc,
                s.start as int,
                s.end as int,
                Seq::empty(),
            ) && after.vim.registers == w.vim.registers.deleted(w.vim.register, held(w.doc, s))
            &&& w.vim.op == Some(Operator::Yank) ==> after.doc == w.doc && after.vim.registers
                == w.vim.registers.yanked(w.vim.register, held(w.doc, s))
            &&& w.vim.op == Some(Operator::Change) && !s.linewise ==> text_replaced(
                w.doc,
                after.doc,
                s.start as int,
                s.end as int,
                Seq::empty(),
            ) && after.vim.mode == Mode::Insert
        }),
{
    reveal(World::object_command);
    if let Some(op) = w.vim.op {
        a_waiting_operator_is_applied::<B>(w, op, s);
        let given = w.with_vim(Vim { op: None, op_count: None, ..w.vim }).begin_edit();
        if op == Operator::Delete {
            delete_takes_the_span_out::<B>(given, s, w.vim.register);
        } else if op == Operator::Yank {
            yank_keeps_the_text::<B>(given, s, w.vim.register);
        } else if op == Operator::Change && !s.linewise {
            change_deletes_and_inserts::<B>(given, s, w.vim.register);
        }
    }
}

/// `dip` takes the paragraph's lines out, and the line behind them stays; `dap`
/// takes that one too.
pub proof fn a_paragraph_is_deleted<B: VimBufferMut>(w: World, inner: bool) -> (r: (int, int))
    requires
        newline_buffer::<B>(),
        on_lines(w),
        0 < w.doc.len() < usize::MAX,
        w.cursor() <= w.doc.line_end(w.line()),
        !(w.vim.mode is Visual),
        w.vim.op == Some(Operator::Delete),
        w.doc.line_start(w.line()) < w.doc.line_stop(w.line()),
    ensures
        ({
            let (first, last) = r;
            let d = w.doc;
            let after = w.object_command::<B>(TextObject::Paragraph { inner });
            &&& 0 <= first <= w.line() <= last < d.line_count()
            &&& forall|i: int| first <= i <= last ==> #[trigger] d.is_blank(i) == d.is_blank(w.line())
            &&& first > 0 ==> d.is_blank(first - 1) != d.is_blank(w.line())
            &&& last + 1 < d.line_count() ==> d.is_blank(last + 1) != d.is_blank(w.line())
            &&& inner || last + 1 == d.line_count() ==> text_replaced(
                d,
                after.doc,
                d.line_start(first),
                d.line_stop(last),
                Seq::empty(),
            )
            &&& !inner && last + 1 < d.line_count() ==> text_replaced(
                d,
                after.doc,
                d.line_start(first),
                d.line_stop(last + 1),
                Seq::empty(),
            )
        }),
{
    let d = w.doc;
    d.lemma_line_of(w.cursor());
    let (first, last) = a_paragraph_is_a_block_of_lines(d, w.cursor());
    d.lemma_line_bounds(first);
    d.lemma_line_bounds(last);
    d.lemma_line_bounds(last + 1);
    d.lemma_line_bounds(w.line());
    assert(d.line_start(first) <= d.line_start(w.line())) by {
        if first < w.line() {
            assert(d.starts[first] < d.starts[w.line()]);
        }
    }
    assert(d.line_stop(w.line()) <= d.line_stop(last)) by {
        if w.line() < last {
            assert(d.starts[w.line() + 1] <= d.starts[last]) by {
                if w.line() + 1 < last {
                    assert(d.starts[w.line() + 1] < d.starts[last]);
                }
            }
        }
    }
    let object = TextObject::Paragraph { inner };
    let s = object_span_at(d, w.cursor(), object)->0;
    an_operator_takes_an_object::<B>(w, object, s);
    (first, last)
}

/// An operator with a motion takes what lies up to where the motion lands; with
/// one that fails, the text stays.
pub proof fn an_operator_takes_a_motion<B: VimBufferMut>(
    w: World,
    seen: (usize, usize),
    m: Motion,
    count: int,
    op: Operator,
)
    requires
        w.vim.op == Some(op),
        !(m is SearchNext),
        !(m is StarSearch),
    ensures
        ({
            let r = landing::<B>(w.vim, w.doc, seen, m, count);
            let after = w.operate_over::<B>(seen, m, count);
            &&& r.moved ==> after.doc == w.complete_operator::<B>(
                motion_span(w.doc, w.cursor(), m, r),
            ).doc
            &&& !r.moved ==> after.doc == w.doc && after.vim.cursor == w.vim.cursor && after.vim.op
                is None
        }),
{
    reveal(World::operate_over);
    reveal(searched);
    reveal(Vim::end_command);
    reveal(Vim::commit_record);
}

/// `cw` on a word goes to the word's end as `ce` does; other operators go to the
/// next word. With a count `G` goes to that line and `%` to that part of the
/// text; without one `%` goes to the other bracket.
pub proof fn what_a_typed_motion_means(w: World)
    ensures
        ({
            let on_word = w.doc.char_at(w.cursor()) matches Some(c) && !white(c);
            let counted = w.vim.count is Some || w.vim.op_count is Some;
            &&& w.vim.op == Some(Operator::Change) && on_word ==> w.meant(
                Motion::WordStart { big: false },
            ) == (Motion::WordEnd { big: false })
            &&& w.vim.op != Some(Operator::Change) || !on_word ==> w.meant(
                Motion::WordStart { big: false },
            ) == (Motion::WordStart { big: false })
            &&& counted ==> w.meant(Motion::MatchBracket) == Motion::FilePercent
            &&& !counted ==> w.meant(Motion::MatchBracket) == Motion::MatchBracket
            &&& counted ==> w.meant(Motion::GoToLine { first: false }) == (Motion::GoToLine {
                first: true,
            })
            &&& !counted ==> w.meant(Motion::GoToLine { first: false }) == (Motion::GoToLine {
                first: false,
            })
        }),
{
}

// ---- sentences ---------------------------------------------------------------------------

/// `as` goes from the beginning of the sentence that the cursor is in to the
/// beginning of the next; `is` begins with its first character that is not white
/// space.
pub proof fn a_sentence_reaches_to_the_next(d: Doc, o: int) -> (t: int)
    requires
        d.wf(),
        d.len() < usize::MAX,
        0 <= o < d.len(),
        d.at_boundary(o),
        d.at_boundary(o + 1),
    ensures
        ({
            let inner = TextObject::Sentence { inner: true }.extent(d, o);
            let outer = TextObject::Sentence { inner: false }.extent(d, o);
            let next = sentence_after(d, o);
            &&& inner is Some && outer is Some
            &&& !inner->0.linewise && !outer->0.linewise
            &&& 0 <= outer->0.start <= o
            &&& outer->0.start == 0 || begins_sentence(d, t, outer->0.start)
            &&& forall|k: int, j: int|
                outer->0.start <= k < j <= o && #[trigger] full_stop(d, k) ==> !#[trigger] inked(
                    d,
                    j,
                )
            &&& outer->0.end == next
            &&& outer->0.start <= inner->0.start
            &&& forall|k: int|
                outer->0.start <= k < inner->0.start ==> !#[trigger] inked(d, k)
            &&& inner->0.start == d.len() || inked(d, inner->0.start)
            &&& inner->0.end == if next >= inner->0.start {
                next
            } else {
                inner->0.start
            }
        }),
{
    let t = sentence_back_is_the_last_one(d, o + 1);
    let u = sentence_on_is_the_next_one(d, o);
    let start = sentence_before(d, o + 1);
    let end = sentence_after(d, o);
    let stop = not_blank(d);
    if start > 0 {
        d.lemma_char_fits(start);
    }
    lemma_scanned(d, start, stop);
    assert forall|k: int| start <= k < scan(d, start, stop) implies !#[trigger] inked(d, k) by {
        if d.char_at(k) is Some {
            assert(!stop(k));
        }
    }
    if end < d.len() {
        assert(inked(d, end));
        assert(scan(d, end, stop) == end);
    } else {
        assert(d.char_at(end) is None);
    }
    t
}

} // verus!
