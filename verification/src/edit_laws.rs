//! What the commands that edit leave of a text.
use crate::buffer::{joins_cluster, replaced_exact, VimBufferMut};
use crate::cells::{
    cells, char_cells, char_fits, lemma_cells_concat, lemma_chars_in_cells, lemma_chars_in_concat,
    well_formed, width,
};
use crate::chars::ascii;
use crate::doc::{max, splice, Doc};
use crate::edits::{line_put, recased_text, repeated, run_of, toggled, without_newlines};
use crate::host::Env;
use crate::join_laws::{newline_buffer, on_lines};
use crate::landing_laws::{chars_between, lemma_chars_split, lemma_one_char, no_joining};
use crate::mode::Mode;
use crate::motions::next_cluster;
use crate::movement::lemma_in_line;
use crate::newline_laws::{lemma_newlines_in_lines, lemma_spliced};
use crate::normal::Reply;
use crate::operators::{chars_back, chars_on, clusters_on, last_line_of, nth_stop, toggled_on};
use crate::ops::{span, OpSpan, Operator};
use crate::registers::{RegisterKind, Slot};
use crate::state::{InsertKind, Vim, World};
use crate::tables::NormalCmd;
use crate::text::{
    lemma_cells_of_chars, lemma_newline_doc, lemma_range_well_formed, lemma_starts_up_to,
    newline_doc,
};
use vstd::prelude::*;

verus! {

/// The engine can edit the text at the cursor: the lines are what newlines
/// separate, and the cursor is on a character of its line or at its end.
pub open spec fn at_work(w: World) -> bool {
    &&& on_lines(w)
    &&& w.doc.len() < usize::MAX
    &&& w.doc.at_boundary(w.cursor())
    &&& w.cursor() <= w.doc.line_end(w.line())
}

/// `after` holds the text of `before` with `[a, b)` replaced by `text`.
pub open spec fn text_replaced(before: Doc, after: Doc, a: int, b: int, text: Seq<char>) -> bool {
    after.cells == before.cells.take(a) + cells(text) + before.cells.skip(b)
}

// ---- one edit --------------------------------------------------------------------------

proof fn lemma_newline_wf(t: Seq<Option<char>>)
    requires
        well_formed(t),
        t.len() < usize::MAX,
    ensures
        newline_doc(t).wf(),
{
    lemma_starts_up_to(t, t.len() as int);
    lemma_newline_doc(t);
}

pub proof fn lemma_deleted<B: VimBufferMut>(w: World, a: int, b: int)
    requires
        newline_buffer::<B>(),
        on_lines(w),
        w.doc.len() < usize::MAX,
        w.doc.is_range(a, b),
    ensures
        text_replaced(w.doc, w.edit_delete::<B>(a, b).doc, a, b, Seq::empty()),
        w.edit_delete::<B>(a, b).doc.wf(),
        w.edit_delete::<B>(a, b).doc == newline_doc(w.edit_delete::<B>(a, b).doc.cells),
        w.edit_delete::<B>(a, b).vim.cursor == w.vim.cursor,
        w.edit_delete::<B>(a, b).vim.registers == w.vim.registers,
        w.edit_delete::<B>(a, b).vim.mode == w.vim.mode,
        w.edit_delete::<B>(a, b).editable,
        w.edit_delete::<B>(a, b).doc.len() == w.doc.len() - (b - a),
{
    reveal(World::edit_delete);
    assert(cells(Seq::<char>::empty()) =~= Seq::empty());
    B::edited_exact(w.doc, a, b, Seq::empty());
    lemma_spliced(w.doc.cells, a, b, Seq::empty());
    lemma_newline_wf(splice(w.doc.cells, a, b, cells(Seq::empty())));
    if a >= b {
        assert(w.doc.cells =~= w.doc.cells.take(a) + cells(Seq::empty()) + w.doc.cells.skip(b));
    }
}

pub proof fn lemma_inserted<B: VimBufferMut>(w: World, at: int, text: Seq<char>)
    requires
        newline_buffer::<B>(),
        on_lines(w),
        w.doc.len() + cells(text).len() < usize::MAX,
        w.doc.is_range(at, at),
        text.len() == 0 || B::takes(text),
    ensures
        text_replaced(w.doc, w.edit_insert::<B>(at, text).doc, at, at, text),
        w.edit_insert::<B>(at, text).doc.wf(),
        w.edit_insert::<B>(at, text).doc == newline_doc(w.edit_insert::<B>(at, text).doc.cells),
        w.edit_insert::<B>(at, text).vim.cursor == w.vim.cursor,
        w.edit_insert::<B>(at, text).vim.registers == w.vim.registers,
        w.edit_insert::<B>(at, text).vim.mode == w.vim.mode,
        w.edit_insert::<B>(at, text).editable,
{
    reveal(World::edit_insert);
    B::edited_exact(w.doc, at, at, text);
    lemma_spliced(w.doc.cells, at, at, text);
    lemma_newline_wf(splice(w.doc.cells, at, at, cells(text)));
    if text.len() == 0 {
        assert(cells(text) =~= Seq::empty());
        assert(w.doc.cells =~= w.doc.cells.take(at) + cells(text) + w.doc.cells.skip(at));
    }
}

pub proof fn lemma_replaced<B: VimBufferMut>(w: World, a: int, b: int, text: Seq<char>)
    requires
        newline_buffer::<B>(),
        on_lines(w),
        w.doc.len() + cells(text).len() < usize::MAX,
        w.doc.is_range(a, b),
        text.len() == 0 || B::takes(text),
    ensures
        text_replaced(w.doc, w.edit_replace::<B>(a, b, text).doc, a, b, text),
        w.edit_replace::<B>(a, b, text).doc.wf(),
        w.edit_replace::<B>(a, b, text).doc == newline_doc(
            w.edit_replace::<B>(a, b, text).doc.cells,
        ),
        w.edit_replace::<B>(a, b, text).vim.cursor == w.vim.cursor,
        w.edit_replace::<B>(a, b, text).vim.registers == w.vim.registers,
        w.edit_replace::<B>(a, b, text).vim.mode == w.vim.mode,
        w.edit_replace::<B>(a, b, text).editable,
{
    reveal(World::edit_replace);
    if a >= b {
        lemma_inserted::<B>(w, a, text);
    } else {
        B::edited_exact(w.doc, a, b, Seq::empty());
        lemma_spliced(w.doc.cells, a, b, Seq::empty());
        assert(cells(Seq::<char>::empty()) =~= Seq::empty());
        lemma_newline_wf(splice(w.doc.cells, a, b, cells(Seq::empty())));
        replaced_exact::<B>(w.doc, a, b, text);
        B::edited_exact(w.doc, a, b, text);
        lemma_spliced(w.doc.cells, a, b, text);
        lemma_newline_wf(splice(w.doc.cells, a, b, cells(text)));
    }
}

/// The same text, cursor and registers.
pub open spec fn same_text(a: World, b: World) -> bool {
    &&& a.doc == b.doc
    &&& a.editable == b.editable
    &&& a.vim.cursor == b.vim.cursor
    &&& a.vim.registers == b.vim.registers
    &&& a.vim.mode == b.vim.mode
    &&& a.vim.options == b.vim.options
    &&& a.vim.register == b.vim.register
}

pub proof fn lemma_begun(w: World)
    ensures
        same_text(w.begin_edit(), w),
        same_text(w.without_count().begin_edit(), w),
        same_text(w.without_count(), w),
        same_text(w.end_edit(), w),
{
    reveal(World::begin_edit);
}

pub proof fn lemma_bumped<B: VimBufferMut>(w: World)
    ensures
        same_text(w.bump::<B>(), w),
{
    reveal(World::bump);
    reveal(Vim::note_change);
    reveal(Vim::republished);
    reveal(Vim::with_current_highlights);
    reveal(Vim::with_matches);
}

// ---- operators -------------------------------------------------------------------------

/// What a span holds, for a register.
pub open spec fn held(d: Doc, s: OpSpan) -> Slot {
    Slot {
        text: d.slice(s.start as int, s.end as int),
        kind: if s.linewise {
            RegisterKind::Linewise
        } else {
            RegisterKind::Charwise
        },
    }
}

/// `d` takes the span out of the text and puts it into the register. The cursor
/// is where a span within lines began; where lines were deleted, on the first
/// non-blank of the line that took their place, or of the last line.
pub proof fn delete_takes_the_span_out<B: VimBufferMut>(w: World, s: OpSpan, register: Option<char>)
    requires
        newline_buffer::<B>(),
        on_lines(w),
        w.doc.len() < usize::MAX,
        w.doc.is_range(s.start as int, s.end as int),
    ensures
        ({
            let after = w.apply::<B>(Operator::Delete, s, register);
            let line = after.doc.line_of(s.start as int);
            &&& text_replaced(w.doc, after.doc, s.start as int, s.end as int, Seq::empty())
            &&& after.doc == newline_doc(after.doc.cells)
            &&& after.vim.registers == w.vim.registers.deleted(register, held(w.doc, s))
            &&& after.vim.mode == w.vim.mode
            &&& !s.linewise ==> after.cursor() == after.doc.clamp(s.start as int)
            &&& s.linewise ==> after.cursor() == after.doc.first_non_blank(line)
        }),
{
    reveal(World::apply);
    reveal(World::operate);
    let after = w.delete_span::<B>(s, register);
    lemma_delete_span::<B>(w, s, register);
    after.doc.lemma_line_of(s.start as int);
    let line = after.doc.line_of(s.start as int);
    after.doc.lemma_first_non_blank(line);
    after.doc.lemma_line_bounds(line);
    after.doc.lemma_clamp(s.start as int);
    lemma_in_line(after.doc, line, after.doc.first_non_blank(line));
    let c = after.doc.clamp(s.start as int);
    assert(after.doc.clamp(c) == c);
}

pub proof fn lemma_delete_span<B: VimBufferMut>(w: World, s: OpSpan, register: Option<char>)
    requires
        newline_buffer::<B>(),
        on_lines(w),
        w.doc.len() < usize::MAX,
        w.doc.is_range(s.start as int, s.end as int),
    ensures
        ({
            let after = w.delete_span::<B>(s, register);
            let line = after.doc.line_of(s.start as int);
            &&& text_replaced(w.doc, after.doc, s.start as int, s.end as int, Seq::empty())
            &&& after.doc == newline_doc(after.doc.cells)
            &&& after.doc.wf()
            &&& after.editable
            &&& after.vim.registers == w.vim.registers.deleted(register, held(w.doc, s))
            &&& after.vim.mode == w.vim.mode
            &&& after.doc.len() == w.doc.len() - (s.end - s.start)
            &&& !s.linewise ==> after.cursor() == after.doc.clamp(s.start as int)
            &&& s.linewise ==> after.cursor() == after.doc.first_non_blank(line)
        }),
{
    reveal(World::delete_span);
    reveal(World::copy_out);
    B::piece_exact(w.doc, s.start as int, s.end as int);
    let slot = w.slot_of_span::<B>(s);
    let u = w.copy_out(register, slot.text);
    let v = u.with_registers(u.vim.registers.deleted(register, slot));
    lemma_deleted::<B>(v, s.start as int, s.end as int);
    let e = v.edit_delete::<B>(s.start as int, s.end as int);
    e.doc.lemma_line_of(s.start as int);
    e.doc.lemma_clamp(s.start as int);
    e.doc.lemma_first_non_blank(e.doc.line_of(s.start as int));
    e.doc.lemma_line_bounds(e.doc.line_of(s.start as int));
}

/// `y` leaves the text as it is and puts the span into the register.
pub proof fn yank_keeps_the_text<B: VimBufferMut>(w: World, s: OpSpan, register: Option<char>)
    requires
        w.doc.wf(),
        w.doc.is_range(s.start as int, s.end as int),
        w.cursor() <= w.doc.line_end(w.line()),
    ensures
        ({
            let after = w.apply::<B>(Operator::Yank, s, register);
            &&& after.doc == w.doc
            &&& after.cursor() == w.cursor()
            &&& after.vim.registers == w.vim.registers.yanked(register, held(w.doc, s))
            &&& after.vim.mode == w.vim.mode
        }),
{
    reveal(World::apply);
    reveal(World::operate);
    reveal(World::yank_span);
    reveal(World::copy_out);
    B::piece_exact(w.doc, s.start as int, s.end as int);
}

/// `c` on a span within lines deletes it and begins to insert in its place.
pub proof fn change_deletes_and_inserts<B: VimBufferMut>(
    w: World,
    s: OpSpan,
    register: Option<char>,
)
    requires
        newline_buffer::<B>(),
        on_lines(w),
        w.doc.len() < usize::MAX,
        w.doc.is_range(s.start as int, s.end as int),
        !s.linewise,
    ensures
        ({
            let after = w.apply::<B>(Operator::Change, s, register);
            &&& text_replaced(w.doc, after.doc, s.start as int, s.end as int, Seq::empty())
            &&& after.vim.registers == w.vim.registers.deleted(register, held(w.doc, s))
            &&& after.vim.mode == Mode::Insert
            &&& after.cursor() == after.doc.clamp(s.start as int)
        }),
{
    reveal(World::apply);
    reveal(World::operate);
    reveal(World::change_span);
    reveal(Vim::begin_insert);
    lemma_delete_span::<B>(w, s, register);
    let after = w.delete_span::<B>(s, register);
    after.doc.lemma_clamp(s.start as int);
    let c = after.doc.clamp(s.start as int);
    assert(after.doc.clamp(c) == c);
}

/// `gu`, `gU` and `g~` put the span with its case changed in its place, whose
/// bytes are as many for ASCII, and leave the registers alone.
pub proof fn case_changes_in_place<B: VimBufferMut>(w: World, op: Operator, s: OpSpan)
    requires
        newline_buffer::<B>(),
        on_lines(w),
        op == Operator::Lowercase || op == Operator::Uppercase || op == Operator::ToggleCase,
        w.doc.is_range(s.start as int, s.end as int),
        ({
            let text = recased_text(op, w.doc.slice(s.start as int, s.end as int));
            (text.len() == 0 || B::takes(text)) && w.doc.len() + cells(text).len() < usize::MAX
        }),
    ensures
        ({
            let text = w.doc.slice(s.start as int, s.end as int);
            let after = w.apply::<B>(op, s, None);
            &&& text_replaced(
                w.doc,
                after.doc,
                s.start as int,
                s.end as int,
                recased_text(op, text),
            )
            &&& after.vim.registers == w.vim.registers
            &&& after.vim.mode == w.vim.mode
            &&& after.cursor() == after.doc.clamp(s.start as int)
        }),
{
    reveal(World::apply);
    reveal(World::operate);
    reveal(World::recase);
    let text = w.doc.slice(s.start as int, s.end as int);
    B::piece_exact(w.doc, s.start as int, s.end as int);
    lemma_replaced::<B>(w, s.start as int, s.end as int, recased_text(op, text));
    let after = w.edit_replace::<B>(s.start as int, s.end as int, recased_text(op, text));
    after.doc.lemma_clamp(s.start as int);
    let c = after.doc.clamp(s.start as int);
    assert(after.doc.clamp(c) == c);
}

/// In a text of ASCII every character changes its own case: `gu` makes capital
/// letters small, `gU` small ones capital, `g~` does both, and all other
/// characters stay.
pub proof fn letters_change_their_case(op: Operator, s: Seq<char>, i: int)
    requires
        op == Operator::Lowercase || op == Operator::Uppercase || op == Operator::ToggleCase,
        forall|k: int| 0 <= k < s.len() ==> ascii(#[trigger] s[k]),
        0 <= i < s.len(),
    ensures
        ({
            let r = recased_text(op, s);
            let c = s[i];
            &&& r.len() == s.len()
            &&& 'A' <= c <= 'Z' ==> r[i] as u32 == if op == Operator::Uppercase {
                c as u32 as int
            } else {
                c as u32 + 32
            }
            &&& 'a' <= c <= 'z' ==> r[i] as u32 == if op == Operator::Lowercase {
                c as u32 as int
            } else {
                c as u32 - 32
            }
            &&& !('A' <= c <= 'Z' || 'a' <= c <= 'z') ==> r[i] == c
        }),
    decreases s.len(),
{
    let less = s.drop_last();
    assert forall|k: int| 0 <= k < less.len() implies ascii(#[trigger] less[k]) by {
        assert(less[k] == s[k]);
    }
    assert(ascii(s[s.len() - 1]));
    lemma_recased_len(op, less);
    if i < less.len() {
        letters_change_their_case(op, less, i);
    }
}

proof fn lemma_recased_len(op: Operator, s: Seq<char>)
    requires
        forall|k: int| 0 <= k < s.len() ==> ascii(#[trigger] s[k]),
    ensures
        recased_text(op, s).len() == s.len(),
    decreases s.len(),
{
    if s.len() > 0 {
        let less = s.drop_last();
        assert forall|k: int| 0 <= k < less.len() implies ascii(#[trigger] less[k]) by {
            assert(less[k] == s[k]);
        }
        assert(ascii(s[s.len() - 1]));
        lemma_recased_len(op, less);
    }
}

// ---- characters ------------------------------------------------------------------------

proof fn lemma_chars_back(d: Doc, o: int, from: int, n: int)
    requires
        d.wf(),
        d.is_range(from, o),
        n >= 0,
    ensures
        ({
            let p = chars_back(d, o, from, n);
            &&& from <= p <= o
            &&& d.at_boundary(p)
            &&& chars_between(d, p, o) <= n
            &&& p > from ==> chars_between(d, p, o) == n
            &&& n > 0 && o > from ==> p < o
        }),
    decreases n,
{
    if n > 0 && o > 0 {
        d.lemma_prev(o);
        let p = d.prev(o)->0;
        if p >= from {
            lemma_chars_back(d, p, from, n - 1);
            lemma_one_char(d, p);
            lemma_chars_split(d, chars_back(d, p, from, n - 1), p, o);
        } else if o > from {
            assert(char_fits(d.cells, p));
            assert(d.cells[from] is None);
        }
    }
}

proof fn lemma_cluster_is_char(d: Doc, o: int)
    requires
        d.wf(),
        no_joining(d),
        d.char_at(o) is Some,
    ensures
        next_cluster(d, o) == Some(o + width(d.char_at(o)->0)),
{
    d.lemma_char_fits(o);
    let n = o + width(d.char_at(o)->0);
    if n < d.len() {
        assert(d.cells[n] is Some);
        assert(!joins_cluster(d, n));
    }
}

proof fn lemma_clusters_on(d: Doc, o: int, end: int, n: int)
    requires
        d.wf(),
        no_joining(d),
        d.is_range(o, end),
        o < end,
        n >= 0,
    ensures
        ({
            let p = clusters_on(d, o, end, n);
            &&& o <= p < end
            &&& d.at_boundary(p)
            &&& chars_between(d, o, p) <= n
            &&& chars_between(d, o, p) < n ==> p + width(d.char_at(p)->0) == end
            &&& p + width(d.char_at(p)->0) <= end
        }),
    decreases n,
{
    d.lemma_char_fits(o);
    let next = o + width(d.char_at(o)->0);
    assert(next <= end) by {
        if next > end {
            assert(char_fits(d.cells, o));
            assert(d.cells[end] is None);
        }
    }
    lemma_cluster_is_char(d, o);
    if n > 0 && next < end {
        lemma_clusters_on(d, next, end, n - 1);
        lemma_one_char(d, o);
        lemma_chars_split(d, o, next, clusters_on(d, next, end, n - 1));
    }
}

/// `{count}x` deletes `count` characters from the cursor on, as far as the line
/// has them, into the register for small deletions; at the end of the line
/// nothing happens.
pub proof fn x_deletes_at_the_cursor<B: VimBufferMut>(w: World, env: Env, replies: Seq<Reply>) -> (
    stop: int)
    requires
        newline_buffer::<B>(),
        at_work(w),
        no_joining(w.doc),
        w.vim.total_count() >= 1,
    ensures
        ({
            let o = w.cursor();
            let end = w.doc.line_end(w.line());
            let after = w.normal_cmd::<B>(env, NormalCmd::DeleteCharForward, replies);
            let count = w.vim.total_count();
            &&& o < end ==> {
                &&& o < stop <= end
                &&& w.doc.at_boundary(stop)
                &&& chars_between(w.doc, o, stop) <= count
                &&& stop < end ==> chars_between(w.doc, o, stop) == count
                &&& text_replaced(w.doc, after.doc, o, stop, Seq::empty())
                &&& after.cursor() == after.doc.clamp(o)
                &&& after.vim.registers == w.vim.registers.deleted(
                    None,
                    (Slot { text: w.doc.slice(o, stop), kind: RegisterKind::Charwise }),
                )
            }
            &&& o == end ==> after.doc == w.doc && after.vim.registers == w.vim.registers
                && after.cursor() == o
        }),
{
    let d = w.doc;
    let o = w.cursor();
    let line = w.line();
    let end = d.line_end(line);
    let count = w.vim.total_count();
    d.lemma_line_of(o);
    d.lemma_line_bounds(line);
    reveal(World::normal_cmd);
    reveal(World::edit_command);
    reveal(World::edit_of);
    reveal(World::delete_chars);
    lemma_begun(w);
    let b = w.without_count().begin_edit();
    let r = b.edit_of::<B>(env, NormalCmd::DeleteCharForward, count);
    lemma_begun(r);
    lemma_bumped::<B>(r.end_edit());
    if o < end {
        lemma_clusters_on(d, o, end, count - 1);
        let hi = clusters_on(d, o, end, count - 1);
        lemma_cluster_is_char(d, hi);
        lemma_one_char(d, hi);
        let stop = hi + width(d.char_at(hi)->0);
        d.lemma_char_fits(hi);
        lemma_chars_split(d, o, hi, stop);
        let s = span(o, stop, false);
        lemma_delete_span::<B>(b, s, None);
        stop
    } else {
        o
    }
}

/// `{count}X` deletes `count` characters before the cursor, as far as the line
/// has them.
pub proof fn x_deletes_before_the_cursor<B: VimBufferMut>(
    w: World,
    env: Env,
    replies: Seq<Reply>,
) -> (start: int)
    requires
        newline_buffer::<B>(),
        at_work(w),
        w.vim.total_count() >= 1,
    ensures
        ({
            let o = w.cursor();
            let from = w.doc.line_start(w.line());
            let after = w.normal_cmd::<B>(env, NormalCmd::DeleteCharBackward, replies);
            let count = w.vim.total_count();
            &&& o > from ==> {
                &&& from <= start < o
                &&& w.doc.at_boundary(start)
                &&& chars_between(w.doc, start, o) <= count
                &&& start > from ==> chars_between(w.doc, start, o) == count
                &&& text_replaced(w.doc, after.doc, start, o, Seq::empty())
                &&& after.cursor() == after.doc.clamp(start)
                &&& after.vim.registers == w.vim.registers.deleted(
                    None,
                    (Slot { text: w.doc.slice(start, o), kind: RegisterKind::Charwise }),
                )
            }
            &&& o == from ==> after.doc == w.doc && after.vim.registers == w.vim.registers
        }),
{
    let d = w.doc;
    let o = w.cursor();
    let line = w.line();
    let from = d.line_start(line);
    let count = w.vim.total_count();
    d.lemma_line_of(o);
    d.lemma_line_bounds(line);
    reveal(World::normal_cmd);
    reveal(World::edit_command);
    reveal(World::edit_of);
    reveal(World::delete_chars);
    lemma_begun(w);
    let b = w.without_count().begin_edit();
    let r = b.edit_of::<B>(env, NormalCmd::DeleteCharBackward, count);
    lemma_begun(r);
    lemma_bumped::<B>(r.end_edit());
    lemma_chars_back(d, o, from, count);
    let lo = chars_back(d, o, from, count);
    if o > from {
        lemma_delete_span::<B>(b, span(lo, o, false), None);
    }
    lo
}

proof fn lemma_nth_stop(d: Doc, o: int, end: int, n: int)
    requires
        d.wf(),
        d.is_range(o, end),
        n >= 0,
    ensures
        nth_stop(d, o, end, n) is Some == (chars_between(d, o, end) >= n),
        nth_stop(d, o, end, n) matches Some(stop) ==> o <= stop <= end && d.at_boundary(stop)
            && chars_between(d, o, stop) == n,
    decreases n,
{
    if n > 0 {
        if o < end {
            d.lemma_char_fits(o);
            let next = o + width(d.char_at(o)->0);
            assert(next <= end) by {
                if next > end {
                    assert(char_fits(d.cells, o));
                    assert(d.cells[end] is None);
                }
            }
            lemma_one_char(d, o);
            lemma_nth_stop(d, next, end, n - 1);
            lemma_chars_split(d, o, next, end);
            if let Some(stop) = nth_stop(d, next, end, n - 1) {
                lemma_chars_split(d, o, next, stop);
            }
        }
    } else {
        lemma_chars_split(d, o, end, end);
    }
}

proof fn lemma_run_cells(c: char, n: int)
    requires
        n >= 0,
    ensures
        cells(run_of(c, n)).len() == n * width(c),
    decreases n,
{
    if n > 0 {
        lemma_run_cells(c, n - 1);
        assert(run_of(c, n).drop_last() =~= run_of(c, n - 1));
        assert((n - 1) * width(c) + width(c) == n * width(c)) by (nonlinear_arith);
    }
}

/// `{count}r` puts the character in the place of each of `count` characters; the
/// cursor is on the last of them. Nothing happens where the line has not so
/// many.
pub proof fn r_replaces_each_character<B: VimBufferMut>(w: World, c: char) -> (stop: int)
    requires
        newline_buffer::<B>(),
        at_work(w),
        w.vim.total_count() >= 1,
        B::takes(run_of(c, w.vim.total_count())),
        w.doc.len() + w.vim.total_count() * width(c) < usize::MAX,
    ensures
        ({
            let o = w.cursor();
            let end = w.doc.line_end(w.line());
            let n = w.vim.total_count();
            let after = w.replace_with::<B>(c);
            let enough = chars_between(w.doc, o, end) >= n;
            &&& enough ==> {
                &&& o <= stop <= end
                &&& chars_between(w.doc, o, stop) == n
                &&& text_replaced(w.doc, after.doc, o, stop, Seq::new(n as nat, |i: int| c))
                &&& after.cursor() == after.doc.clamp(o + (n - 1) * width(c))
            }
            &&& !enough ==> after.doc == w.doc && after.cursor() == o
            &&& after.vim.registers == w.vim.registers
        }),
{
    let d = w.doc;
    let o = w.cursor();
    let line = w.line();
    let end = d.line_end(line);
    let n = w.vim.total_count();
    d.lemma_line_of(o);
    d.lemma_line_bounds(line);
    reveal(World::replace_with);
    reveal(World::replace_chars);
    lemma_begun(w);
    let b = w.without_count().begin_edit();
    let r = b.replace_chars::<B>(c, n);
    lemma_begun(r);
    lemma_bumped::<B>(r.end_edit());
    lemma_nth_stop(d, o, end, n);
    lemma_run_cells(c, n);
    match nth_stop(d, o, end, n) {
        Some(stop) => {
            lemma_replaced::<B>(b, o, stop, run_of(c, n));
            assert(run_of(c, n) =~= Seq::new(n as nat, |i: int| c));
            assert(o + n * width(c) - width(c) == o + (n - 1) * width(c)) by (nonlinear_arith);
            assert((n - 1) * width(c) >= 0) by (nonlinear_arith)
                requires
                    n >= 1,
                    width(c) >= 1,
            ;
            let e = b.edit_replace::<B>(o, stop, run_of(c, n));
            e.doc.lemma_clamp(o + (n - 1) * width(c));
            stop
        },
        None => o,
    }
}

proof fn lemma_toggled_on(d: Doc, o: int, end: int, n: int)
    requires
        d.wf(),
        d.is_range(o, end),
        n >= 0,
    ensures
        ({
            let stop = chars_on(d, o, end, n);
            &&& o <= stop <= end
            &&& d.at_boundary(stop)
            &&& chars_between(d, o, stop) <= n
            &&& stop < end ==> chars_between(d, o, stop) == n
            &&& toggled_on(d, o, end, n) == recased_text(Operator::ToggleCase, d.slice(o, stop))
        }),
    decreases n,
{
    if n > 0 && o < end {
        d.lemma_char_fits(o);
        let c = d.char_at(o)->0;
        let next = o + width(c);
        assert(next <= end) by {
            if next > end {
                assert(char_fits(d.cells, o));
                assert(d.cells[end] is None);
            }
        }
        lemma_one_char(d, o);
        lemma_toggled_on(d, next, end, n - 1);
        let stop = chars_on(d, next, end, n - 1);
        lemma_chars_split(d, o, next, stop);
        assert(d.cells.subrange(o, stop) =~= d.cells.subrange(o, next) + d.cells.subrange(
            next,
            stop,
        ));
        lemma_chars_in_concat(d.cells.subrange(o, next), d.cells.subrange(next, stop));
        assert(char_fits(d.cells, o));
        assert(d.cells.subrange(o, next) =~= char_cells(c));
        assert(d.slice(o, next) == seq![c]) by {
            let s = seq![c];
            assert(s.drop_last() =~= Seq::empty());
            assert(cells(s.drop_last()) =~= Seq::empty());
            assert(cells(s) =~= char_cells(c));
            lemma_chars_in_cells(s);
        }
        lemma_recased_concat(Operator::ToggleCase, seq![c], d.slice(next, stop));
        assert(seq![c].drop_last() =~= Seq::empty());
        assert(recased_text(Operator::ToggleCase, seq![c].drop_last()) =~= Seq::empty());
        assert(recased_text(Operator::ToggleCase, seq![c]) =~= toggled(c));
    } else {
        assert(d.cells.subrange(o, o) =~= Seq::empty());
    }
}

proof fn lemma_recased_concat(op: Operator, a: Seq<char>, b: Seq<char>)
    ensures
        recased_text(op, a + b) == recased_text(op, a) + recased_text(op, b),
    decreases b.len(),
{
    if b.len() == 0 {
        assert(a + b =~= a);
        assert(recased_text(op, a) + recased_text(op, b) =~= recased_text(op, a));
    } else {
        lemma_recased_concat(op, a, b.drop_last());
        assert((a + b).drop_last() =~= a + b.drop_last());
        assert(recased_text(op, a + b) =~= recased_text(op, a) + recased_text(op, b));
    }
}

/// `{count}~` changes the case of `count` characters from the cursor on, as far
/// as the line has them, and the cursor is behind them.
pub proof fn tilde_changes_the_case<B: VimBufferMut>(w: World, env: Env, replies: Seq<Reply>) -> (
    stop: int)
    requires
        newline_buffer::<B>(),
        at_work(w),
        w.vim.total_count() >= 1,
        forall|t: Seq<char>| #[trigger] B::takes(t),
        w.doc.len() + cells(
            toggled_on(w.doc, w.cursor(), w.doc.line_end(w.line()), w.vim.total_count()),
        ).len() < usize::MAX,
    ensures
        ({
            let o = w.cursor();
            let end = w.doc.line_end(w.line());
            let count = w.vim.total_count();
            let after = w.normal_cmd::<B>(env, NormalCmd::ToggleChar, replies);
            let text = recased_text(Operator::ToggleCase, w.doc.slice(o, stop));
            &&& o <= stop <= end
            &&& w.doc.at_boundary(stop)
            &&& chars_between(w.doc, o, stop) <= count
            &&& stop < end ==> chars_between(w.doc, o, stop) == count
            &&& text.len() > 0 ==> text_replaced(w.doc, after.doc, o, stop, text) && after.cursor()
                == after.doc.clamp(o + cells(text).len())
            &&& text.len() == 0 ==> after.doc == w.doc
            &&& after.vim.registers == w.vim.registers
        }),
{
    let d = w.doc;
    let o = w.cursor();
    let line = w.line();
    let end = d.line_end(line);
    let count = w.vim.total_count();
    d.lemma_line_of(o);
    d.lemma_line_bounds(line);
    reveal(World::normal_cmd);
    reveal(World::edit_command);
    reveal(World::edit_of);
    reveal(World::toggle_chars);
    lemma_begun(w);
    let b = w.without_count().begin_edit();
    let r = b.edit_of::<B>(env, NormalCmd::ToggleChar, count);
    lemma_begun(r);
    lemma_bumped::<B>(r.end_edit());
    lemma_toggled_on(d, o, end, count);
    let stop = chars_on(d, o, end, count);
    let text = toggled_on(d, o, end, count);
    if text.len() > 0 {
        lemma_replaced::<B>(b, o, stop, text);
        let e = b.edit_replace::<B>(o, stop, text);
        e.doc.lemma_clamp(o + cells(text).len());
    }
    stop
}

// ---- putting ---------------------------------------------------------------------------

/// A text repeated `n` times: `n` times as long, and the same all over.
pub proof fn repetition_repeats(s: Seq<char>, n: int, i: int)
    requires
        n >= 0,
        s.len() > 0,
    ensures
        repeated(s, n).len() == n * s.len(),
        0 <= i < n * s.len() ==> repeated(s, n)[i] == s[i % (s.len() as int)],
    decreases n,
{
    let m = s.len() as int;
    if n > 0 {
        repetition_repeats(s, n - 1, i);
        assert((n - 1) * m + m == n * m) by (nonlinear_arith);
        assert(repeated(s, n) == repeated(s, n - 1) + s);
        assert((n - 1) * m >= 0) by (nonlinear_arith)
            requires
                n >= 1,
                m >= 0,
        ;
        if (n - 1) * m <= i < n * m {
            assert(repeated(s, n)[i] == s[i - (n - 1) * m]);
            vstd::arithmetic::div_mod::lemma_fundamental_div_mod_converse(
                i,
                m,
                n - 1,
                i - (n - 1) * m,
            );
        }
    } else {
        assert(n * m == 0) by (nonlinear_arith)
            requires
                n == 0,
        ;
    }
}

/// What the register in use holds, as a put reads it.
pub open spec fn in_use(w: World, env: Env) -> Option<Slot> {
    w.vim.registers.paste_slot(
        match w.vim.register {
            Some(name) => name,
            None => '"',
        },
        env.clip,
    )
}

/// `{count}p` puts a text `count` times behind the character at the cursor and
/// `{count}P` before it; the cursor is on the last character put.
pub proof fn put_within_a_line<B: VimBufferMut>(
    w: World,
    env: Env,
    replies: Seq<Reply>,
    after: bool,
)
    requires
        newline_buffer::<B>(),
        at_work(w),
        in_use(w, env) matches Some(slot) && slot.text.len() > 0 && slot.kind
            != RegisterKind::Linewise,
        ({
            let text = repeated(in_use(w, env)->0.text, max(w.vim.total_count(), 1));
            B::takes(text) && w.doc.len() + cells(text).len() < usize::MAX
        }),
    ensures
        ({
            let o = w.cursor();
            let text = repeated(in_use(w, env)->0.text, max(w.vim.total_count(), 1));
            let cmd = if after {
                NormalCmd::PutAfter
            } else {
                NormalCmd::PutBefore
            };
            let then = w.normal_cmd::<B>(env, cmd, replies);
            let at = if after && o < w.doc.line_end(w.line()) {
                o + width(w.doc.char_at(o)->0)
            } else {
                o
            };
            &&& text_replaced(w.doc, then.doc, at, at, text)
            &&& then.doc.prev(at + cells(text).len()) is Some
            &&& then.cursor() == then.doc.clamp(then.doc.prev(at + cells(text).len())->0)
            &&& then.vim.registers == w.vim.registers
        }),
{
    let d = w.doc;
    let o = w.cursor();
    let line = w.line();
    let count = w.vim.total_count();
    let slot = in_use(w, env)->0;
    let text = repeated(slot.text, max(count, 1));
    let cmd = if after {
        NormalCmd::PutAfter
    } else {
        NormalCmd::PutBefore
    };
    d.lemma_line_of(o);
    d.lemma_line_bounds(line);
    reveal(World::normal_cmd);
    reveal(World::edit_command);
    reveal(World::edit_of);
    reveal(World::put);
    reveal(World::put_chars);
    lemma_begun(w);
    let b = w.without_count().begin_edit();
    let r = b.edit_of::<B>(env, cmd, count);
    lemma_begun(r);
    lemma_bumped::<B>(r.end_edit());
    d.lemma_char_fits(o);
    let at = if after && o < d.line_end(line) {
        o + width(d.char_at(o)->0)
    } else {
        o
    };
    lemma_repeated_nonempty(slot.text, max(count, 1));
    lemma_inserted::<B>(b, at, text);
    let e = b.edit_insert::<B>(at, text);
    let behind_it = at + cells(text).len();
    lemma_cells_nonempty(text);
    assert(e.doc.at_boundary(behind_it)) by {
        if behind_it < e.doc.len() {
            assert(e.doc.cells[behind_it] == d.cells[at]);
        }
    }
    e.doc.lemma_prev(behind_it);
    e.doc.lemma_clamp(e.doc.prev(behind_it)->0);
}

proof fn lemma_repeated_nonempty(s: Seq<char>, n: int)
    requires
        s.len() > 0,
        n >= 1,
    ensures
        repeated(s, n).len() > 0,
{
    repetition_repeats(s, n, 0);
    assert(n * s.len() >= 1) by (nonlinear_arith)
        requires
            n >= 1,
            s.len() >= 1,
    ;
}

proof fn lemma_cells_nonempty(s: Seq<char>)
    requires
        s.len() > 0,
    ensures
        cells(s).len() > 0,
{
    assert(cells(s).len() == cells(s.drop_last()).len() + width(s.last()));
}

/// `{count}p` puts lines `count` times below the cursor's line and `{count}P`
/// above it. Behind a last line that ends in no newline they follow a newline.
/// The cursor is on the first non-blank of the first of them.
pub proof fn put_of_lines<B: VimBufferMut>(w: World, env: Env, replies: Seq<Reply>, after: bool)
    requires
        newline_buffer::<B>(),
        at_work(w),
        in_use(w, env) matches Some(slot) && slot.text.len() > 0 && slot.kind
            == RegisterKind::Linewise && slot.text.last() == '\n',
        forall|t: Seq<char>| #[trigger] B::takes(t),
        w.doc.len() + cells(repeated(in_use(w, env)->0.text, max(w.vim.total_count(), 1))).len() + 1
            < usize::MAX,
    ensures
        ({
            let line = w.line();
            let d = w.doc;
            let text = repeated(in_use(w, env)->0.text, max(w.vim.total_count(), 1));
            let cmd = if after {
                NormalCmd::PutAfter
            } else {
                NormalCmd::PutBefore
            };
            let then = w.normal_cmd::<B>(env, cmd, replies);
            let above = d.line_start(line);
            let below = d.line_stop(line);
            &&& !after ==> text_replaced(d, then.doc, above, above, text) && then.cursor()
                == then.doc.first_non_blank(then.doc.line_of(above))
            &&& after && line + 1 < d.line_count() ==> text_replaced(
                d,
                then.doc,
                below,
                below,
                text,
            ) && then.cursor() == then.doc.first_non_blank(then.doc.line_of(below))
            &&& after && line + 1 == d.line_count() ==> text_replaced(
                d,
                then.doc,
                d.len(),
                d.len(),
                seq!['\n'] + without_newlines(text),
            ) && then.cursor() == then.doc.first_non_blank(then.doc.line_of(d.len() + 1))
            &&& then.vim.registers == w.vim.registers
        }),
{
    let d = w.doc;
    let o = w.cursor();
    let line = w.line();
    let count = w.vim.total_count();
    let slot = in_use(w, env)->0;
    let text = repeated(slot.text, max(count, 1));
    let cmd = if after {
        NormalCmd::PutAfter
    } else {
        NormalCmd::PutBefore
    };
    d.lemma_line_of(o);
    d.lemma_line_bounds(line);
    lemma_newlines_in_lines(d, line);
    reveal(World::normal_cmd);
    reveal(World::edit_command);
    reveal(World::edit_of);
    reveal(World::put);
    reveal(World::put_lines);
    lemma_begun(w);
    let b = w.without_count().begin_edit();
    let r = b.edit_of::<B>(env, cmd, count);
    lemma_begun(r);
    lemma_bumped::<B>(r.end_edit());
    lemma_repeated_nonempty(slot.text, max(count, 1));
    let n = max(count, 1);
    assert(repeated(slot.text, n).last() == '\n') by {
        assert(repeated(slot.text, n) == repeated(slot.text, n - 1) + slot.text);
    }
    let (at, inserted) = line_put(d, line, text, after);
    lemma_without_newlines(text);
    lemma_cells_concat(seq!['\n'], without_newlines(text));
    lemma_cells_shorter(text, without_newlines(text).len() as int);
    assert(seq!['\n'].drop_last() =~= Seq::<char>::empty());
    assert(cells(seq!['\n'].drop_last()) =~= Seq::empty());
    assert(cells(seq!['\n']).len() == 1);
    lemma_inserted::<B>(b, at, inserted);
    let e = b.edit_insert::<B>(at, inserted);
    lemma_cells_nonempty(inserted);
    e.doc.lemma_line_of(at);
    e.doc.lemma_line_of(at + 1);
    e.doc.lemma_first_non_blank(e.doc.line_of(at));
    e.doc.lemma_first_non_blank(e.doc.line_of(at + 1));
    e.doc.lemma_line_bounds(e.doc.line_of(at));
    e.doc.lemma_line_bounds(e.doc.line_of(at + 1));
}

proof fn lemma_without_newlines(s: Seq<char>)
    ensures
        without_newlines(s).len() <= s.len(),
        without_newlines(s) == s.take(without_newlines(s).len() as int),
    decreases s.len(),
{
    if s.len() > 0 && s.last() == '\n' {
        lemma_without_newlines(s.drop_last());
        let n = without_newlines(s).len() as int;
        assert(s.drop_last().take(n) =~= s.take(n));
    } else {
        assert(s.take(s.len() as int) =~= s);
    }
}

proof fn lemma_cells_shorter(s: Seq<char>, n: int)
    requires
        0 <= n <= s.len(),
    ensures
        cells(s.take(n)).len() <= cells(s).len(),
{
    lemma_cells_concat(s.take(n), s.skip(n));
    assert(s.take(n) + s.skip(n) =~= s);
}

/// A put of a register that holds nothing, or no text, leaves everything as it
/// is.
pub proof fn put_of_nothing<B: VimBufferMut>(w: World, env: Env, replies: Seq<Reply>)
    requires
        in_use(w, env) matches Some(slot) ==> slot.text.len() == 0,
    ensures
        w.normal_cmd::<B>(env, NormalCmd::PutAfter, replies).doc == w.doc,
        w.normal_cmd::<B>(env, NormalCmd::PutBefore, replies).doc == w.doc,
        w.normal_cmd::<B>(env, NormalCmd::PutAfter, replies).vim.cursor == w.vim.cursor,
        w.normal_cmd::<B>(env, NormalCmd::PutBefore, replies).vim.cursor == w.vim.cursor,
{
    reveal(World::normal_cmd);
    reveal(World::edit_command);
    reveal(World::edit_of);
    reveal(World::put);
    lemma_begun(w);
    let b = w.without_count().begin_edit();
    lemma_begun(b);
    lemma_bumped::<B>(b.end_edit());
}

// ---- lines -----------------------------------------------------------------------------

/// A doubled operator, and `Y`, take `count` whole lines from the cursor's on,
/// or as many as there are.
pub proof fn counted_lines_are_whole(w: World, count: int)
    requires
        w.doc.wf(),
        count >= 1,
    ensures
        ({
            let d = w.doc;
            let line = w.line();
            let last = if line + count <= d.line_count() {
                line + count - 1
            } else {
                d.line_count() - 1
            };
            w.counted_lines(count) == (OpSpan {
                start: d.line_start(line) as usize,
                end: d.line_stop(last) as usize,
                linewise: true,
            })
        }),
{
    w.doc.lemma_line_of(w.cursor());
}

/// The count of a command is the one typed before the operator times the one
/// typed behind it, and one where neither was typed.
pub proof fn counts_are_multiplied(v: Vim, a: usize, b: usize)
    requires
        a * b <= usize::MAX,
    ensures
        v.count == Some(a) && v.op_count == Some(b) ==> v.total_count() == a * b,
        v.count == Some(a) && v.op_count is None ==> v.total_count() == a,
        v.count is None && v.op_count == Some(b) ==> v.total_count() == b,
        v.count is None && v.op_count is None ==> v.total_count() == 1,
{
}

/// Digits typed one after the other make a number: each next one counts ten
/// times what stands before it.
pub proof fn digits_make_a_count(v: Vim, n: usize, c: char)
    requires
        '0' <= c <= '9',
        n * 10 + 9 <= usize::MAX,
    ensures
        v.count == Some(n) ==> v.with_digit(c).count == Some((n * 10 + (c as u32 - 48)) as usize),
        v.count is None ==> v.with_digit(c).count == Some((c as u32 - 48) as usize),
        v.with_digit(c) == (Vim { count: v.with_digit(c).count, ..v }),
{
}

/// `D` deletes what is behind the cursor on its line, the character at it
/// included.
pub proof fn d_deletes_the_rest<B: VimBufferMut>(w: World, env: Env, replies: Seq<Reply>)
    requires
        newline_buffer::<B>(),
        at_work(w),
    ensures
        ({
            let o = w.cursor();
            let end = w.doc.line_end(w.line());
            let after = w.normal_cmd::<B>(env, NormalCmd::DeleteToEnd, replies);
            &&& text_replaced(w.doc, after.doc, o, end, Seq::empty())
            &&& o < end ==> after.vim.registers == w.vim.registers.deleted(
                w.vim.register,
                (Slot { text: w.doc.slice(o, end), kind: RegisterKind::Charwise }),
            )
            &&& o == end ==> after.vim.registers == w.vim.registers
        }),
{
    let o = w.cursor();
    let line = w.line();
    let end = w.doc.line_end(line);
    w.doc.lemma_line_of(o);
    w.doc.lemma_line_bounds(line);
    reveal(World::normal_cmd);
    reveal(World::apply_to);
    lemma_begun(w);
    if o < end {
        let s = w.rest_of_line();
        let b = w.begin_edit();
        delete_takes_the_span_out::<B>(b, s, b.vim.register);
        lemma_bumped::<B>(b.apply::<B>(Operator::Delete, s, b.vim.register));
    } else {
        assert(cells(Seq::<char>::empty()) =~= Seq::empty());
        assert(w.doc.cells =~= w.doc.cells.take(o) + cells(Seq::empty()) + w.doc.cells.skip(end));
    }
}

/// `C` deletes what is behind the cursor on its line and begins to insert there.
pub proof fn c_changes_the_rest<B: VimBufferMut>(w: World, env: Env, replies: Seq<Reply>)
    requires
        newline_buffer::<B>(),
        at_work(w),
    ensures
        ({
            let o = w.cursor();
            let end = w.doc.line_end(w.line());
            let after = w.normal_cmd::<B>(env, NormalCmd::ChangeToEnd, replies);
            &&& text_replaced(w.doc, after.doc, o, end, Seq::empty())
            &&& after.vim.mode == Mode::Insert
            &&& o < end ==> after.vim.registers == w.vim.registers.deleted(
                w.vim.register,
                (Slot { text: w.doc.slice(o, end), kind: RegisterKind::Charwise }),
            )
        }),
{
    let o = w.cursor();
    let line = w.line();
    let end = w.doc.line_end(line);
    w.doc.lemma_line_of(o);
    w.doc.lemma_line_bounds(line);
    reveal(World::normal_cmd);
    reveal(World::apply_to);
    reveal(World::insert_place);
    reveal(Vim::begin_insert);
    lemma_begun(w);
    if o < end {
        let s = w.rest_of_line();
        let b = w.begin_edit();
        change_deletes_and_inserts::<B>(b, s, b.vim.register);
        lemma_bumped::<B>(b.apply::<B>(Operator::Change, s, b.vim.register));
    } else {
        assert(cells(Seq::<char>::empty()) =~= Seq::empty());
        assert(w.doc.cells =~= w.doc.cells.take(o) + cells(Seq::empty()) + w.doc.cells.skip(end));
    }
}

// ---- beginning to insert -----------------------------------------------------------------

/// Where `i`, `a`, `I`, `A` and `gI` begin to insert: at the cursor, behind the
/// character at it, at the first non-blank, at the end and at the start of the
/// line. The text stays, and the mode is Insert.
pub proof fn where_inserting_begins<B: VimBufferMut>(w: World)
    requires
        at_work(w),
        no_joining(w.doc),
    ensures
        ({
            let o = w.cursor();
            let d = w.doc;
            let line = w.line();
            let begin = |kind: InsertKind| w.start_insert::<B>(kind);
            &&& begin(InsertKind::Insert).cursor() == o
            &&& begin(InsertKind::Append).cursor() == if o < d.line_end(line) {
                o + width(d.char_at(o)->0)
            } else {
                o
            }
            &&& begin(InsertKind::InsertFirstNonBlank).cursor() == d.first_non_blank(line)
            &&& begin(InsertKind::AppendLineEnd).cursor() == d.line_end(line)
            &&& begin(InsertKind::InsertAtColumnZero).cursor() == d.line_start(line)
            &&& begin(InsertKind::Insert).vim.mode == Mode::Insert
            &&& begin(InsertKind::Append).vim.mode == Mode::Insert
            &&& begin(InsertKind::InsertFirstNonBlank).vim.mode == Mode::Insert
            &&& begin(InsertKind::AppendLineEnd).vim.mode == Mode::Insert
            &&& begin(InsertKind::InsertAtColumnZero).vim.mode == Mode::Insert
            &&& begin(InsertKind::Replace).vim.mode == Mode::Replace
            &&& begin(InsertKind::Insert).doc == d
            &&& begin(InsertKind::Append).doc == d
            &&& begin(InsertKind::InsertFirstNonBlank).doc == d
            &&& begin(InsertKind::AppendLineEnd).doc == d
            &&& begin(InsertKind::InsertAtColumnZero).doc == d
            &&& begin(InsertKind::Replace).doc == d && begin(InsertKind::Replace).cursor() == o
            &&& w.vim.marks.last_insert_exit matches Some(last) ==> begin(
                InsertKind::LastInsertExit,
            ).cursor() == if last <= d.len() {
                last as int
            } else {
                d.len()
            }
        }),
{
    let o = w.cursor();
    let d = w.doc;
    let line = w.line();
    d.lemma_line_of(o);
    d.lemma_line_bounds(line);
    d.lemma_first_non_blank(line);
    reveal(World::insert_place);
    reveal(Vim::begin_insert);
    d.lemma_char_fits(o);
    if o < d.line_end(line) {
        lemma_cluster_is_char(d, o);
    }
}

/// `o` opens a line below the cursor's and `O` one above it, indented by as many
/// spaces as the cursor's line is. The cursor is behind the indent, and the
/// mode is Insert.
pub proof fn a_line_is_opened<B: VimBufferMut>(w: World, below: bool)
    requires
        newline_buffer::<B>(),
        at_work(w),
        forall|t: Seq<char>| #[trigger] B::takes(t),
        w.doc.len() + w.doc.indent(w.line()) + 1 < usize::MAX,
    ensures
        ({
            let d = w.doc;
            let line = w.line();
            let n = d.indent(line);
            let indent = Seq::new(n as nat, |i: int| ' ');
            let after = w.start_insert::<B>(InsertKind::OpenLine { below });
            &&& after.vim.mode == Mode::Insert
            &&& below ==> text_replaced(
                d,
                after.doc,
                d.line_end(line),
                d.line_end(line),
                seq!['\n'] + indent,
            ) && after.cursor() == d.line_end(line) + 1 + n
            &&& !below ==> text_replaced(
                d,
                after.doc,
                d.line_start(line),
                d.line_start(line),
                indent.push('\n'),
            ) && after.cursor() == d.line_start(line) + n
        }),
{
    let d = w.doc;
    let line = w.line();
    d.lemma_line_of(w.cursor());
    d.lemma_line_bounds(line);
    d.lemma_first_non_blank(line);
    reveal(World::insert_place);
    reveal(World::open_line);
    reveal(Vim::begin_insert);
    lemma_begun(w);
    let b = w.begin_edit();
    let n = d.indent(line);
    let indent = run_of(' ', n);
    assert(indent =~= Seq::new(n as nat, |i: int| ' '));
    lemma_run_cells(' ', n);
    lemma_cells_concat(seq!['\n'], indent);
    assert(seq!['\n'].drop_last() =~= Seq::<char>::empty());
    assert(cells(seq!['\n'].drop_last()) =~= Seq::empty());
    assert(cells(seq!['\n']).len() == 1);
    assert(indent.push('\n').drop_last() =~= indent);
    assert(cells(indent.push('\n')).len() == n + 1);
    if below {
        lemma_inserted::<B>(b, d.line_end(line), seq!['\n'] + indent);
    } else {
        lemma_inserted::<B>(b, d.line_start(line), indent.push('\n'));
    }
}

/// `c` on whole lines leaves one line with the indent of the first, and begins to
/// insert behind it.
pub proof fn a_change_of_lines_keeps_the_indent<B: VimBufferMut>(
    w: World,
    first: int,
    last: int,
    register: Option<char>,
)
    requires
        newline_buffer::<B>(),
        on_lines(w),
        w.doc.len() < usize::MAX,
        0 <= first <= last < w.doc.line_count(),
        w.doc.line_start(last) < w.doc.line_stop(last),
        forall|t: Seq<char>| #[trigger] B::takes(t),
    ensures
        ({
            let d = w.doc;
            let (start, end) = (d.line_start(first), d.line_end(last));
            let s = OpSpan { start: start as usize, end: d.line_stop(last) as usize, linewise: true };
            let indent = d.slice(start, start + d.indent(first));
            let after = w.apply::<B>(Operator::Change, s, register);
            &&& text_replaced(d, after.doc, start, end, indent)
            &&& after.vim.mode == Mode::Insert
            &&& after.vim.registers == w.vim.registers.deleted(
                register,
                (Slot { text: d.slice(start, end), kind: RegisterKind::Charwise }),
            )
        }),
{
    let d = w.doc;
    let (start, end) = (d.line_start(first), d.line_end(last));
    d.lemma_line_bounds(first);
    d.lemma_line_bounds(last);
    d.lemma_first_non_blank(first);
    if first < last {
        assert(d.starts[first] < d.starts[last]);
    }
    if first + 1 < d.line_count() {
        assert(d.starts[first] < d.starts[first + 1]);
    }
    if last + 1 < d.line_count() {
        assert(d.starts[last] < d.starts[last + 1]);
    }
    let s = OpSpan { start: start as usize, end: d.line_stop(last) as usize, linewise: true };
    d.lemma_line_of_unique(start, first);
    d.lemma_line_of_unique(d.line_stop(last) - 1, last);
    reveal(World::apply);
    reveal(World::operate);
    reveal(World::change_span);
    reveal(Vim::begin_insert);
    assert(last_line_of(d, s) == last);
    let n = d.indent(first);
    B::piece_exact(d, start, start + n);
    let indent = d.slice(start, start + n);
    assert(w.kept_indent::<B>(s) == indent);
    let e = w.change_extent(s);
    assert(e == span(start, end, false));
    lemma_delete_span::<B>(w, e, register);
    let u = w.delete_span::<B>(e, register);
    assert(cells(Seq::<char>::empty()) =~= Seq::empty());
    let cut = d.cells.take(start) + d.cells.skip(end);
    assert(u.doc.cells =~= cut);
    assert(u.doc.at_boundary(start)) by {
        if start < u.doc.len() {
            assert(u.doc.cells[start] == d.cells[end]);
        }
    }
    // what is left of the lines is empty, and the cursor is there
    lemma_cut_line(d, u.doc, first, last);
    assert(u.cursor() == start);
    let sub = d.cells.subrange(start, start + n);
    lemma_range_well_formed(d.cells, start, start + n);
    lemma_cells_of_chars(sub);
    if indent.len() > 0 {
        lemma_inserted::<B>(u, start, indent);
        let v = u.edit_insert::<B>(start, indent);
        assert(v.doc.cells =~= d.cells.take(start) + cells(indent) + d.cells.skip(end));
    } else {
        assert(cells(indent) =~= Seq::empty());
        assert(u.doc.cells =~= d.cells.take(start) + cells(indent) + d.cells.skip(end));
    }
}

proof fn lemma_cut_line(d: Doc, e: Doc, first: int, last: int)
    requires
        d.wf(),
        e.wf(),
        d == newline_doc(d.cells),
        0 <= first <= last < d.line_count(),
        e.cells == d.cells.take(d.line_start(first)) + d.cells.skip(d.line_end(last)),
        e == newline_doc(e.cells),
    ensures
        e.clamp(d.line_start(first)) == d.line_start(first),
{
    let start = d.line_start(first);
    d.lemma_line_bounds(first);
    d.lemma_line_bounds(last);
    let i = e.line_of(start);
    e.lemma_line_of(start);
    e.lemma_line_bounds(i);
    lemma_newlines_in_lines(e, i);
    if e.line_end(i) < start {
        assert(e.line_stop(i) >= start);
        assert(e.line_end(i) + 1 == start);
        assert(i + 1 < e.line_count());
    }
}

} // verus!
