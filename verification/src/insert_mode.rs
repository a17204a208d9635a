//! Insert sessions and insert-mode key handling.
//!
//! Printable characters intentionally come back as unknown (unless an
//! insert-mode mapping wants them): the host's IME path owns text input, so
//! composition (Chinese/Japanese input, accents, ...) keeps working. Text
//! arrives back through [`VimState::insert_text_at_cursor`].
use crate::buffer::{VimBuffer, VimBufferMut};
use crate::cells::{cells, char_len, width};
use crate::doc::{max, Doc};
use crate::edits::{behind, run_of, run_text};
use crate::host::{hears, Env, HostCall, VimHost};
use crate::key::{ctrl_stroke, named_stroke, Key, KeyKind, Kind, Stroke};
use crate::marks::MarkSet;
use crate::mode::Mode;
use crate::motions::Motion;
use crate::shift::plus;
use crate::state::{
    BlockInsert, BlockPlan, Ctx, Cursor, InsertKind, InsertSession, KeyResult, Vim, VimState, World,
};
use crate::strs::{byte_len, chars_of, same_str};
use crate::word::{prev_word_start, word_start_before};
use std::ops::Range;
use vstd::prelude::*;

verus! {

impl Vim {
    /// In an insert session: it belongs to the undo group that is open, or to
    /// a new one.
    #[verifier::opaque]
    pub open spec fn begin_insert(self, d: Doc, kind: InsertKind) -> Vim {
        let v = self.with_group(d);
        Vim {
            insert_session: Some(
                InsertSession {
                    kind,
                    start_offset: self.cursor.offset,
                    group_id: v.open_undo->0,
                },
            ),
            mode: if kind == InsertKind::Replace {
                Mode::Replace
            } else {
                Mode::Insert
            },
            cursor: Cursor { desired_col: None, ..self.cursor },
            overwritten: Seq::empty(),
            ..v
        }
    }
}

impl World {
    pub open spec fn begin_insert(self, kind: InsertKind) -> World {
        World { vim: self.vim.begin_insert(self.doc, kind), ..self }
    }
}

impl VimState {
    fn open_session(&mut self, kind: InsertKind, group_id: u64)
        ensures
            final(self)@ == (Vim {
                insert_session: Some(
                    InsertSession { kind, start_offset: old(self)@.cursor.offset, group_id },
                ),
                mode: if kind == InsertKind::Replace {
                    Mode::Replace
                } else {
                    Mode::Insert
                },
                cursor: Cursor { desired_col: None, ..old(self)@.cursor },
                overwritten: Seq::empty(),
                ..old(self)@
            }),
    {
        self.insert_session = Some(
            InsertSession { kind, start_offset: self.cursor.offset, group_id },
        );
        self.mode = if kind == InsertKind::Replace {
            Mode::Replace
        } else {
            Mode::Insert
        };
        self.cursor.desired_col = None;
        self.overwritten = Vec::new();
        proof {
            assert(self.overwritten@ =~= Seq::<Option<char>>::empty());
        }
    }

    pub(crate) fn begin_insert<B: VimBufferMut, H: VimHost>(
        &mut self,
        ctx: &mut Ctx<B, H>,
        kind: InsertKind,
    )
        ensures
            *final(final(ctx).buf) == *final(old(ctx).buf),
            *final(final(ctx).host) == *final(old(ctx).host),
            hears(*final(ctx).host, final(self)@.told, *old(ctx).host, old(self)@.told),
            final(ctx).world(*final(self)) == old(ctx).world(*old(self)).begin_insert(kind),
            final(ctx).env() == old(ctx).env(),
    {
        proof {
            reveal(Vim::begin_insert);
        }
        // Reuse an open undo group when one exists: the change family (c/s/S/C)
        // deletes the span through a group that is already open, and the
        // deletion + subsequent typing must undo as ONE step. Without this the
        // host would snapshot between deletion and typing, so the first `u`
        // only undid the typing and a second one was needed for the deletion.
        let group_id = self.open_group(ctx);
        self.open_session(kind, group_id);
    }
}


// ---- leaving an insert session -----------------------------------------------------------------

/// Offsets from the last to the first.
pub open spec fn sorted_down(s: Seq<usize>) -> Seq<usize>
    decreases s.len(),
{
    if s.len() == 0 {
        s
    } else {
        put_down(sorted_down(s.drop_last()), s.last())
    }
}

/// `x` in its place in a list that goes down.
pub open spec fn put_down(s: Seq<usize>, x: usize) -> Seq<usize>
    decreases s.len(),
{
    if s.len() > 0 && s.last() < x {
        put_down(s.drop_last(), x).push(s.last())
    } else {
        s.push(x)
    }
}

fn insert_down(v: &mut Vec<usize>, x: usize)
    ensures
        final(v)@ == put_down(old(v)@, x),
{
    let ghost before = v@;
    let mut i: usize = v.len();
    proof {
        assert(before.take(i as int) =~= before);
        assert(before.skip(i as int) =~= Seq::empty());
        assert(put_down(before, x) =~= put_down(before.take(i as int), x) + before.skip(i as int));
    }
    while i > 0 && v[i - 1] < x
        invariant
            i <= v.len(),
            v@ == before,
            put_down(before, x) == put_down(before.take(i as int), x) + before.skip(i as int),
        decreases i,
    {
        proof {
            let part = before.take(i as int);
            assert(part.drop_last() =~= before.take(i - 1));
            assert(part.last() == before[i - 1]);
            assert(put_down(before.take(i - 1), x).push(before[i - 1]) + before.skip(i as int)
                =~= put_down(before.take(i - 1), x) + before.skip(i - 1));
        }
        i = i - 1;
    }
    v.insert(i, x);
    proof {
        if i > 0 {
            assert(before.take(i as int).last() == before[i - 1]);
        }
        assert(v@ =~= before.take(i as int).push(x) + before.skip(i as int));
    }
}

/// Where the typed text of a block insert goes on the other rows: rows behind
/// the cursor's have moved by its length.
pub open spec fn replica_rows(plan: BlockPlan) -> Seq<usize> {
    plan.rows.map_values(
        |row: (usize, usize)|
            if row.1 > plan.cursor_raw {
                behind(row.0 as int, plan.text) as usize
            } else {
                row.0
            },
    )
}

/// The offsets at which the typed text goes, the last row first.
fn rows_down(block: &BlockInsert) -> (r: Vec<usize>)
    ensures
        r@ == sorted_down(replica_rows(block@)),
{
    let len = byte_len(block.text.as_str());
    let ghost all = replica_rows(block@);
    let mut rows: Vec<usize> = Vec::new();
    let mut i: usize = 0;
    proof {
        assert(all.take(0) =~= Seq::empty());
        assert(sorted_down(Seq::<usize>::empty()) =~= Seq::empty());
    }
    while i < block.rows.len()
        invariant
            i <= block.rows.len(),
            all == replica_rows(block@),
            len == cells(block.text@).len(),
            rows@ == sorted_down(all.take(i as int)),
        decreases block.rows.len() - i,
    {
        let (adjusted, raw) = block.rows[i];
        let at = if raw > block.cursor_raw {
            plus(adjusted, len)
        } else {
            adjusted
        };
        proof {
            assert(at == all[i as int]);
            assert(all.take(i + 1).drop_last() =~= all.take(i as int));
            assert(all.take(i + 1).last() == at);
        }
        insert_down(&mut rows, at);
        i = i + 1;
    }
    proof {
        assert(all.take(i as int) =~= all);
    }
    rows
}

impl World {
    /// The same text inserted at each of the offsets, one after the other.
    pub open spec fn insert_at_each<B: VimBufferMut>(
        self,
        offsets: Seq<usize>,
        text: Seq<char>,
    ) -> World
        decreases offsets.len(),
    {
        if offsets.len() == 0 {
            self
        } else {
            self.insert_at_each::<B>(offsets.drop_last(), text).edit_insert::<B>(
                offsets.last() as int,
                text,
            )
        }
    }

    /// The text typed in a block insert replicated onto the other rows, from
    /// the bottom up.
    #[verifier::opaque]
    pub open spec fn replicate_block<B: VimBufferMut>(self) -> World {
        let w = World { vim: Vim { block_insert: None, ..self.vim }, ..self };
        match self.vim.block_insert {
            Some(plan) => if plan.text.len() > 0 {
                w.insert_at_each::<B>(sorted_down(replica_rows(plan)), plan.text)
            } else {
                w
            },
            None => w,
        }
    }

    /// Search highlights brought up to date.
    pub open spec fn republish<B: VimBuffer>(self) -> World {
        World { vim: self.vim.republished::<B>(self.doc), ..self }
    }

    /// Where the cursor goes when insert mode is left: back one character,
    /// unless that is in another line.
    pub open spec fn insert_exit(self) -> int {
        let start = self.doc.line_start(self.line());
        if self.cursor() > start {
            match self.doc.prev(self.cursor()) {
                Some(p) => max(p, start),
                None => self.cursor(),
            }
        } else {
            self.cursor()
        }
    }

    /// Back from insert mode to Normal mode.
    #[verifier::opaque]
    pub open spec fn exit_insert<B: VimBufferMut>(self) -> World {
        let at = self.insert_exit();
        let w = self.at(at);
        let w = World { vim: w.vim.mark_insert_exit(), ..w }.replicate_block::<B>();
        let w = World {
            vim: Vim { insert_session: None, ..w.vim.commit_record() },
            ..w
        }.republish::<B>();
        World { vim: w.vim.leave_insert(), ..w }.say(HostCall::Changed)
    }
}

impl Vim {
    /// The marks of the end of an insert session at the cursor.
    pub open spec fn mark_insert_exit(self) -> Vim {
        Vim {
            marks: (MarkSet {
                last_insert_exit: Some(self.cursor.offset),
                ..self.marks
            }).with_mark('^', self.cursor.offset),
            ..self
        }
    }

    /// In Normal mode, the undo group closed.
    pub open spec fn leave_insert(self) -> Vim {
        Vim {
            open_undo: None,
            mode: Mode::Normal,
            insert_register_pending: false,
            overwritten: Seq::empty(),
            ..self
        }
    }
}

impl VimState {
    fn mark_insert_exit(&mut self)
        ensures
            final(self)@ == old(self)@.mark_insert_exit(),
    {
        let at = self.cursor.offset;
        self.marks.set_last_insert_exit(at);
        self.marks.set('^', at);
    }

    pub(crate) fn insert_at_each<B: VimBufferMut, H: VimHost>(
        &mut self,
        ctx: &mut Ctx<B, H>,
        offsets: &Vec<usize>,
        text: &str,
    )
        ensures
            *final(final(ctx).buf) == *final(old(ctx).buf),
            *final(final(ctx).host) == *final(old(ctx).host),
            hears(*final(ctx).host, final(self)@.told, *old(ctx).host, old(self)@.told),
            final(ctx).world(*final(self)) == old(ctx).world(*old(self)).insert_at_each::<B>(
                offsets@,
                text@,
            ),
            final(ctx).env() == old(ctx).env(),
    {
        let ghost w = ctx.world(*self);
        let ghost e = ctx.env();
        let mut i: usize = 0;
        proof {
            assert(offsets@.take(0) =~= Seq::empty());
        }
        while i < offsets.len()
            invariant
                *final(ctx.buf) == *final(old(ctx).buf),
                *final(ctx.host) == *final(old(ctx).host),
                hears(*ctx.host, self@.told, *old(ctx).host, old(self)@.told),
                i <= offsets.len(),
                ctx.world(*self) == w.insert_at_each::<B>(offsets@.take(i as int), text@),
                ctx.env() == e,
            decreases offsets.len() - i,
        {
            proof {
                assert(offsets@.take(i + 1).drop_last() =~= offsets@.take(i as int));
                assert(offsets@.take(i + 1).last() == offsets@[i as int]);
            }
            self.edit_insert(ctx, offsets[i], text);
            i = i + 1;
        }
        proof {
            assert(offsets@.take(i as int) =~= offsets@);
        }
    }

    /// visual-block I/A/c: replicate the typed text onto the other rows
    /// while the session's undo group is still open (one `u` restores all).
    fn replicate_block<B: VimBufferMut, H: VimHost>(&mut self, ctx: &mut Ctx<B, H>)
        ensures
            *final(final(ctx).buf) == *final(old(ctx).buf),
            *final(final(ctx).host) == *final(old(ctx).host),
            hears(*final(ctx).host, final(self)@.told, *old(ctx).host, old(self)@.told),
            final(ctx).world(*final(self)) == old(ctx).world(*old(self)).replicate_block::<B>(),
            final(ctx).env() == old(ctx).env(),
    {
        proof {
            reveal(World::replicate_block);
        }
        let plan = self.block_insert.take();
        if let Some(block) = plan {
            if block.text.as_str().is_empty() {
                return;
            }
            let rows = rows_down(&block);
            self.insert_at_each(ctx, &rows, block.text.as_str());
        }
    }

    fn leave_insert(&mut self)
        ensures
            final(self)@ == old(self)@.leave_insert(),
    {
        self.open_undo = None;
        self.mode = Mode::Normal;
        self.insert_register_pending = false;
        self.overwritten = Vec::new();
        proof {
            assert(self.overwritten@ =~= Seq::<Option<char>>::empty());
        }
    }

    /// Back one char unless at the line start (Replace mode too: vim leaves
    /// the cursor on the last replaced character).
    fn step_back<B: VimBufferMut, H: VimHost>(&mut self, ctx: &mut Ctx<B, H>)
        ensures
            *final(final(ctx).buf) == *final(old(ctx).buf),
            *final(final(ctx).host) == *final(old(ctx).host),
            hears(*final(ctx).host, final(self)@.told, *old(ctx).host, old(self)@.told),
            final(ctx).world(*final(self)) == ({
                let w = old(ctx).world(*old(self));
                w.at(w.insert_exit())
            }),
            final(ctx).env() == old(ctx).env(),
    {
        let at = self.cursor.offset;
        let line_start = ctx.buf.line_start(ctx.buf.offset_to_line(at));
        if at > line_start {
            if let Some(prev) = ctx.buf.prev_char_offset(at) {
                self.set_offset(
                    if prev >= line_start {
                        prev
                    } else {
                        line_start
                    },
                );
            }
        }
    }

    fn end_session(&mut self)
        ensures
            final(self)@ == (Vim { insert_session: None, ..old(self)@.commit_record() }),
            final(self)@.told == old(self)@.told,
    {
        self.commit_change_record();
        self.insert_session = None;
    }

    pub(crate) fn exit_insert<B: VimBufferMut, H: VimHost>(&mut self, ctx: &mut Ctx<B, H>)
        ensures
            *final(final(ctx).buf) == *final(old(ctx).buf),
            *final(final(ctx).host) == *final(old(ctx).host),
            hears(*final(ctx).host, final(self)@.told, *old(ctx).host, old(self)@.told),
            final(ctx).world(*final(self)) == old(ctx).world(*old(self)).exit_insert::<B>(),
            final(ctx).env() == old(ctx).env(),
    {
        proof {
            reveal(World::exit_insert);
        }
        self.step_back(ctx);
        self.mark_insert_exit();
        self.replicate_block(ctx);
        self.end_session();
        self.republish_search(ctx);
        self.leave_insert();
        self.notify_changed(ctx);
    }

    /// Called when insert mode is left implicitly (host navigation etc.).
    pub fn ensure_normal_mode<B: VimBufferMut, H: VimHost>(&mut self, ctx: &mut Ctx<B, H>)
        ensures
            *final(final(ctx).buf) == *final(old(ctx).buf),
            *final(final(ctx).host) == *final(old(ctx).host),
            hears(*final(ctx).host, final(self)@.told, *old(ctx).host, old(self)@.told),
            final(ctx).world(*final(self)) == if old(self)@.mode == Mode::Insert {
                old(ctx).world(*old(self)).exit_insert::<B>()
            } else {
                old(ctx).world(*old(self))
            },
            final(ctx).env() == old(ctx).env(),
    {
        if self.mode == Mode::Insert {
            self.exit_insert(ctx);
        }
    }
}

// ---- typed text ------------------------------------------------------------------------------------

/// A text whose further lines begin with an indent.
pub open spec fn indented(text: Seq<char>, indent: Seq<char>) -> Seq<char>
    decreases text.len(),
{
    if text.len() == 0 {
        text
    } else if text.last() == '\n' {
        indented(text.drop_last(), indent).push('\n') + indent
    } else {
        indented(text.drop_last(), indent).push(text.last())
    }
}

fn indent_text(text: &str, indent: &str) -> (s: String)
    ensures
        s@ == indented(text@, indent@),
{
    let v = chars_of(text);
    let mut s = String::new();
    let mut i: usize = 0;
    proof {
        assert(v@.take(0) =~= Seq::empty());
    }
    while i < v.len()
        invariant
            i <= v.len(),
            s@ == indented(v@.take(i as int), indent@),
        decreases v.len() - i,
    {
        proof {
            assert(v@.take(i + 1).drop_last() =~= v@.take(i as int));
            assert(v@.take(i + 1).last() == v@[i as int]);
        }
        s.push(v[i]);
        if v[i] == '\n' {
            s.push_str(indent);
        }
        i = i + 1;
    }
    proof {
        assert(v@.take(i as int) =~= v@);
    }
    s
}

/// What `n` characters typed over the text at `o` overwrite: nothing behind
/// the end of the line.
pub open spec fn overwritten_on(d: Doc, o: int, end: int, n: int) -> Seq<Option<char>>
    decreases n,
{
    if n <= 0 {
        Seq::empty()
    } else if o < end && d.char_at(o) is Some {
        seq![d.char_at(o)] + overwritten_on(d, o + width(d.char_at(o)->0), end, n - 1)
    } else {
        seq![None] + overwritten_on(d, o, end, n - 1)
    }
}

/// Where what `n` characters overwrite ends.
pub open spec fn overwrite_stop(d: Doc, o: int, end: int, n: int) -> int
    decreases n,
{
    if n <= 0 {
        o
    } else if o < end && d.char_at(o) is Some {
        overwrite_stop(d, o + width(d.char_at(o)->0), end, n - 1)
    } else {
        o
    }
}

fn overwrite_extent<B: VimBuffer>(buf: &B, from: usize, end: usize, n: usize) -> (r: (
    usize,
    Vec<Option<char>>,
))
    ensures
        r.0 == overwrite_stop(buf.doc(), from as int, end as int, n as int),
        r.1@ == overwritten_on(buf.doc(), from as int, end as int, n as int),
{
    let ghost d = buf.doc();
    let ghost all = overwritten_on(d, from as int, end as int, n as int);
    let mut at: usize = from;
    let mut over: Vec<Option<char>> = Vec::new();
    let mut i: usize = 0;
    proof {
        assert(over@ + all =~= all);
    }
    while i < n
        invariant
            i <= n,
            d == buf.doc(),
            overwrite_stop(d, at as int, end as int, n - i) == overwrite_stop(
                d,
                from as int,
                end as int,
                n as int,
            ),
            over@ + overwritten_on(d, at as int, end as int, n - i) == all,
        decreases n - i,
    {
        let c = buf.char_at(at);
        proof {
            buf.doc_wf();
            d.lemma_char_fits(at as int);
        }
        if at < end && c.is_some() {
            let len = char_len(c.unwrap());
            proof {
                let rest = overwritten_on(d, at + len, end as int, n - i - 1);
                assert(over@.push(c) + rest =~= over@ + (seq![c] + rest));
            }
            over.push(c);
            at = at + len;
        } else {
            proof {
                let rest = overwritten_on(d, at as int, end as int, n - i - 1);
                assert(over@.push(None) + rest =~= over@ + (seq![None] + rest));
                if n - i - 1 > 0 {
                    assert(overwrite_stop(d, at as int, end as int, n - i - 1) == at);
                }
            }
            over.push(None);
        }
        i = i + 1;
    }
    proof {
        assert(over@ + Seq::<Option<char>>::empty() =~= over@);
    }
    (at, over)
}

impl World {
    /// The indent of the line that the cursor is in.
    pub open spec fn cursor_indent<B: VimBuffer>(self) -> Seq<char> {
        let start = self.doc.line_start(self.line());
        B::piece(self.doc, start, start + self.doc.indent(self.line()))
    }

    /// A text as it is typed: further lines get the indent of this one.
    pub open spec fn as_typed<B: VimBuffer>(self, text: Seq<char>) -> Seq<char> {
        if self.vim.options.autoindent && self.cursor_indent::<B>().len() > 0 {
            indented(text, self.cursor_indent::<B>())
        } else {
            text
        }
    }

    /// A text put over the text at the cursor.
    #[verifier::opaque]
    pub open spec fn overwrite<B: VimBufferMut>(self, text: Seq<char>) -> World {
        let at = self.cursor();
        let end = self.doc.line_end(self.line());
        let over = overwritten_on(self.doc, at, end, text.len() as int);
        World {
            vim: Vim { overwritten: self.vim.overwritten + over, ..self.vim },
            ..self
        }.edit_replace::<B>(at, overwrite_stop(self.doc, at, end, text.len() as int), text)
    }

    /// A text typed at the cursor, which ends up behind it. Only an insert
    /// mode takes text.
    #[verifier::opaque]
    pub open spec fn type_text<B: VimBufferMut>(self, text: Seq<char>) -> World {
        if !self.vim.mode.inserting() || text.len() == 0 {
            self
        } else {
            let w = self.begin_edit();
            let typed = w.as_typed::<B>(text);
            let e = if w.vim.mode == Mode::Replace {
                w.overwrite::<B>(typed)
            } else {
                w.edit_insert::<B>(w.cursor(), typed)
            };
            e.at(behind(w.cursor(), typed)).republish::<B>().say(HostCall::Changed)
        }
    }
}

/// Appends a list to another.
fn append_all(to: &mut Vec<Option<char>>, from: &Vec<Option<char>>)
    ensures
        final(to)@ == old(to)@ + from@,
{
    let ghost before = to@;
    let mut i: usize = 0;
    while i < from.len()
        invariant
            i <= from.len(),
            to@ == before + from@.take(i as int),
        decreases from.len() - i,
    {
        to.push(from[i]);
        i = i + 1;
        proof {
            assert(to@ =~= before + from@.take(i as int));
        }
    }
    proof {
        assert(from@.take(i as int) =~= from@);
    }
}

impl VimState {
    fn cursor_indent<B: VimBufferMut, H: VimHost>(&self, ctx: &Ctx<B, H>) -> (s: String)
        ensures
            s@ == ctx.world(*self).cursor_indent::<B>(),
    {
        let line = ctx.buf.offset_to_line(self.cursor.offset);
        let start = ctx.buf.line_start(line);
        let (indent, _) = ctx.buf.line_indent(line);
        proof {
            ctx.buf.doc_wf();
            ctx.buf.doc().lemma_line_of(self.cursor.offset as int);
            ctx.buf.doc().lemma_line_bounds(line as int);
            ctx.buf.doc().lemma_first_non_blank(line as int);
        }
        ctx.buf.slice(start..start + indent)
    }

    fn overwrite<B: VimBufferMut, H: VimHost>(&mut self, ctx: &mut Ctx<B, H>, text: &str)
        ensures
            *final(final(ctx).buf) == *final(old(ctx).buf),
            *final(final(ctx).host) == *final(old(ctx).host),
            hears(*final(ctx).host, final(self)@.told, *old(ctx).host, old(self)@.told),
            final(ctx).world(*final(self)) == old(ctx).world(*old(self)).overwrite::<B>(text@),
            final(ctx).env() == old(ctx).env(),
    {
        proof {
            reveal(World::overwrite);
        }
        let at = self.cursor.offset;
        let end = ctx.buf.line_end(ctx.buf.offset_to_line(at));
        let n = chars_of(text).len();
        // overwrite up to the text length, then insert the remainder
        let (stop, over) = overwrite_extent(&*ctx.buf, at, end, n);
        append_all(&mut self.overwritten, &over);
        self.edit_replace(ctx, at..stop, text);
    }

    fn place_text<B: VimBufferMut, H: VimHost>(&mut self, ctx: &mut Ctx<B, H>, text: &str)
        ensures
            *final(final(ctx).buf) == *final(old(ctx).buf),
            *final(final(ctx).host) == *final(old(ctx).host),
            hears(*final(ctx).host, final(self)@.told, *old(ctx).host, old(self)@.told),
            final(ctx).world(*final(self)) == ({
                let w = old(ctx).world(*old(self));
                if w.vim.mode == Mode::Replace {
                    w.overwrite::<B>(text@)
                } else {
                    w.edit_insert::<B>(w.cursor(), text@)
                }
            }),
            final(ctx).env() == old(ctx).env(),
    {
        if self.mode == Mode::Replace {
            self.overwrite(ctx, text);
        } else {
            let at = self.cursor.offset;
            self.edit_insert(ctx, at, text);
        }
    }

    /// Insert `text` at the cursor (the IME path, and internal insert helpers).
    ///
    /// Only meaningful in insert/replace mode. Newlines get autoindent.
    pub fn insert_text_at_cursor<B: VimBufferMut, H: VimHost>(
        &mut self,
        ctx: &mut Ctx<B, H>,
        text: &str,
    )
        ensures
            *final(final(ctx).buf) == *final(old(ctx).buf),
            *final(final(ctx).host) == *final(old(ctx).host),
            hears(*final(ctx).host, final(self)@.told, *old(ctx).host, old(self)@.told),
            final(ctx).world(*final(self)) == old(ctx).world(*old(self)).type_text::<B>(text@),
            final(ctx).env() == old(ctx).env(),
    {
        proof {
            reveal(World::type_text);
        }
        if !self.mode.is_inserting() || text.is_empty() {
            return;
        }
        self.begin_edit(ctx);
        let indent = self.cursor_indent(&*ctx);
        let typed = if self.options.autoindent && !indent.as_str().is_empty() {
            indent_text(text, indent.as_str())
        } else {
            crate::strs::copy_str(text)
        };
        proof {
            assert(typed@ == ctx.world(*self).as_typed::<B>(text@));
        }
        let at = self.cursor.offset;
        self.place_text(ctx, typed.as_str());
        self.set_offset(plus(at, byte_len(typed.as_str())));
        self.republish_search(ctx);
        self.notify_changed(ctx);
    }
}

// ---- keys ----------------------------------------------------------------------------------------------

impl World {
    /// `[start, end)` deleted while inserting, the cursor at its start.
    #[verifier::opaque]
    pub open spec fn cut<B: VimBufferMut>(self, start: int, end: int) -> World {
        self.begin_edit().edit_delete::<B>(start, end).at(start).say(HostCall::Changed)
    }

    /// Backspace: the character before the cursor deleted, at the start of a
    /// line its newline.
    pub open spec fn back_over<B: VimBufferMut>(self) -> World {
        let at = self.cursor();
        if at > self.doc.line_start(self.line()) {
            match self.doc.prev(at) {
                Some(p) => self.cut::<B>(p, at),
                None => self,
            }
        } else if at > 0 {
            self.cut::<B>(at - 1, at)
        } else {
            self
        }
    }

    /// Backspace in Replace mode: what the last typed character has
    /// overwritten comes back.
    #[verifier::opaque]
    pub open spec fn backspace<B: VimBufferMut>(self) -> World {
        let over = self.vim.overwritten;
        if self.vim.mode == Mode::Replace && over.len() > 0 {
            let w = World { vim: Vim { overwritten: over.drop_last(), ..self.vim }, ..self };
            match (over.last(), w.doc.prev(w.cursor())) {
                (Some(c), Some(p)) => w.begin_edit().edit_replace::<B>(
                    p,
                    w.cursor(),
                    seq![c],
                ).at(p).say(HostCall::Changed),
                _ => w.back_over::<B>(),
            }
        } else {
            self.back_over::<B>()
        }
    }

    /// Tab: a tab, or the spaces up to the next tab stop.
    pub open spec fn tab<B: VimBufferMut>(self) -> World {
        if self.vim.options.expandtab {
            let stop = max(self.vim.options.tabstop as int, 1);
            let column = self.cursor() - self.doc.line_start(self.line());
            self.type_text::<B>(run_of(' ', stop - column % stop))
        } else {
            self.type_text::<B>("\t"@)
        }
    }

    /// Delete: the character at the cursor deleted.
    #[verifier::opaque]
    pub open spec fn delete_ahead<B: VimBufferMut>(self) -> World {
        match self.doc.next(self.cursor()) {
            Some(n) => self.begin_edit().edit_delete::<B>(self.cursor(), n).say(HostCall::Changed),
            None => self,
        }
    }

    /// `<C-w>`: the word before the cursor deleted, but nothing of another
    /// line.
    pub open spec fn cut_word_before<B: VimBufferMut>(self) -> World {
        let to = max(
            word_start_before(self.doc, self.cursor(), false),
            self.doc.line_start(self.line()),
        );
        if to < self.cursor() {
            self.cut::<B>(to, self.cursor())
        } else {
            self
        }
    }

    /// `<C-u>`: everything before the cursor in its line deleted.
    pub open spec fn cut_line_before<B: VimBufferMut>(self) -> World {
        let to = self.doc.line_start(self.line());
        if to < self.cursor() {
            self.cut::<B>(to, self.cursor())
        } else {
            self
        }
    }

    /// `<C-r>{name}`: the text of a register typed.
    #[verifier::opaque]
    pub open spec fn type_register<B: VimBufferMut>(
        self,
        env: Env,
        name: Option<char>,
    ) -> World {
        let w = World { vim: Vim { insert_register_pending: false, ..self.vim }, ..self };
        match name {
            Some(name) => match w.vim.registers.paste_slot(name, env.clip) {
                Some(slot) => w.type_text::<B>(slot.text),
                None => w,
            },
            None => w,
        }
    }
}

/// The motion of a named key in insert mode.
pub open spec fn insert_motion(name: Seq<char>) -> Option<Motion> {
    if name == "up"@ {
        Some(Motion::Up)
    } else if name == "down"@ {
        Some(Motion::Down)
    } else if name == "left"@ {
        Some(Motion::Left)
    } else if name == "right"@ {
        Some(Motion::Right)
    } else if name == "pageup"@ {
        Some(Motion::PageUp)
    } else if name == "pagedown"@ {
        Some(Motion::PageDown)
    } else {
        None
    }
}

impl World {
    /// The effect of a named key in insert mode, if it has one.
    #[verifier::opaque]
    pub open spec fn insert_named<B: VimBufferMut>(self, env: Env, name: Seq<char>) -> Option<World> {
        if name == "enter"@ {
            Some(self.type_text::<B>("\n"@))
        } else if name == "backspace"@ {
            Some(self.backspace::<B>())
        } else if name == "tab"@ {
            Some(self.tab::<B>())
        } else if name == "delete"@ {
            Some(self.delete_ahead::<B>())
        } else if name == "home"@ {
            Some(self.at(self.doc.line_start(self.line())))
        } else if name == "end"@ {
            Some(self.at(self.doc.line_end(self.line())))
        } else {
            match insert_motion(name) {
                Some(m) => Some(self.go::<B>(env.seen, m, 1)),
                None => None,
            }
        }
    }

    /// The effect of a control key in insert mode, if it has one.
    #[verifier::opaque]
    pub open spec fn insert_ctrl<B: VimBufferMut>(self, kind: Kind) -> Option<World> {
        if kind == Kind::Char('w') || kind == Kind::Char('W') {
            Some(self.cut_word_before::<B>())
        } else if kind == Kind::Char('u') {
            Some(self.cut_line_before::<B>())
        } else if kind == Kind::Char('r') {
            Some(World { vim: Vim { insert_register_pending: true, ..self.vim }, ..self })
        } else {
            None
        }
    }

    /// A key in insert mode: what becomes of the world, and whether the
    /// engine takes the key.
    #[verifier::opaque]
    pub open spec fn insert_key<B: VimBufferMut>(self, env: Env, key: Stroke) -> (World, KeyResult) {
        if self.vim.insert_register_pending {
            (self.type_register::<B>(env, key.printable()), KeyResult::Consumed)
        } else if leaves_insert(key) {
            (self.exit_insert::<B>(), KeyResult::Consumed)
        } else {
            let effect = match key.kind {
                Kind::Named(name) => if key.modifiers.plain() {
                    self.insert_named::<B>(env, name)
                } else {
                    None
                },
                Kind::Char(_) => if key.modifiers.control && !key.modifiers.alt
                    && !key.modifiers.platform {
                    self.insert_ctrl::<B>(key.kind)
                } else {
                    None
                },
            };
            match effect {
                Some(w) => (w, KeyResult::Consumed),
                None => (
                    if key.printable() is Some {
                        World { vim: Vim { pending_unknown_char: key.printable(), ..self.vim }, ..self }
                    } else {
                        self
                    },
                    KeyResult::Unknown,
                ),
            }
        }
    }
}

/// `<Esc>`, `<C-[>` and `<C-c>` leave insert mode.
pub open spec fn leaves_insert(key: Stroke) -> bool {
    key == named_stroke("escape"@) || key == ctrl_stroke('[') || key == ctrl_stroke('c')
}

/// `<C-w>` takes away nothing but text of the cursor's line before the cursor.
pub proof fn cut_word_stays_in_line<B: VimBufferMut>(w: World)
    requires
        w.doc.wf(),
        w.doc.len() <= usize::MAX,
        w.cursor() <= w.doc.len(),
        w.doc.at_boundary(w.cursor()),
        w.editable,
    ensures
        ({
            let cut = w.cut_word_before::<B>();
            let start = w.doc.line_start(w.line());
            &&& start <= cut.cursor() <= w.cursor()
            &&& cut.doc.cells.take(cut.cursor()) == w.doc.cells.take(cut.cursor())
            &&& cut.doc.cells.skip(cut.cursor()) == w.doc.cells.skip(w.cursor())
        }),
{
    let d = w.doc;
    let at = w.cursor();
    let to = max(word_start_before(d, at, false), d.line_start(w.line()));
    d.lemma_line_of(at);
    d.lemma_line_bounds(w.line());
    crate::word::back_a_word_goes_back(d, at, false);
    if to < at {
        reveal(World::cut);
        reveal(World::begin_edit);
        reveal(World::edit_delete);
        B::edited_exact(d, to, at, Seq::empty());
        let e = B::edited(d, to, at, Seq::empty());
        assert(e.cells =~= d.cells.take(to) + d.cells.skip(at));
        assert(e.cells.take(to) =~= d.cells.take(to));
        assert(e.cells.skip(to) =~= d.cells.skip(at));
    }
}

impl VimState {
    fn cut<B: VimBufferMut, H: VimHost>(&mut self, ctx: &mut Ctx<B, H>, range: Range<usize>)
        ensures
            *final(final(ctx).buf) == *final(old(ctx).buf),
            *final(final(ctx).host) == *final(old(ctx).host),
            hears(*final(ctx).host, final(self)@.told, *old(ctx).host, old(self)@.told),
            final(ctx).world(*final(self)) == old(ctx).world(*old(self)).cut::<B>(
                range.start as int,
                range.end as int,
            ),
            final(ctx).env() == old(ctx).env(),
    {
        proof {
            reveal(World::cut);
        }
        let start = range.start;
        self.begin_edit(ctx);
        self.edit_delete(ctx, range);
        self.set_offset(start);
        self.notify_changed(ctx);
    }

    fn back_over<B: VimBufferMut, H: VimHost>(&mut self, ctx: &mut Ctx<B, H>)
        ensures
            *final(final(ctx).buf) == *final(old(ctx).buf),
            *final(final(ctx).host) == *final(old(ctx).host),
            hears(*final(ctx).host, final(self)@.told, *old(ctx).host, old(self)@.told),
            final(ctx).world(*final(self)) == old(ctx).world(*old(self)).back_over::<B>(),
            final(ctx).env() == old(ctx).env(),
    {
        let at = self.cursor.offset;
        let line_start = ctx.buf.line_start(ctx.buf.offset_to_line(at));
        if at > line_start {
            if let Some(prev) = ctx.buf.prev_char_offset(at) {
                self.cut(ctx, prev..at);
            }
        } else if at > 0 {
            // join with the previous line
            self.cut(ctx, at - 1..at);
        }
    }

    fn pop_overwritten(&mut self) -> (r: Option<Option<char>>)
        ensures
            match r {
                Some(over) => old(self)@.overwritten.len() > 0 && over
                    == old(self)@.overwritten.last() && final(self)@ == (Vim {
                    overwritten: old(self)@.overwritten.drop_last(),
                    ..old(self)@
                }),
                None => old(self)@.overwritten.len() == 0 && final(self)@ == old(self)@,
            },
    {
        let r = self.overwritten.pop();
        proof {
            if r is None {
                assert(self.overwritten@ =~= old(self).overwritten@);
            } else {
                assert(self.overwritten@ =~= old(self).overwritten@.drop_last());
            }
        }
        r
    }

    fn restore<B: VimBufferMut, H: VimHost>(
        &mut self,
        ctx: &mut Ctx<B, H>,
        range: Range<usize>,
        c: char,
    )
        ensures
            *final(final(ctx).buf) == *final(old(ctx).buf),
            *final(final(ctx).host) == *final(old(ctx).host),
            hears(*final(ctx).host, final(self)@.told, *old(ctx).host, old(self)@.told),
            final(ctx).world(*final(self)) == old(ctx).world(*old(self)).begin_edit().edit_replace::<
                B,
            >(range.start as int, range.end as int, seq![c]).at(range.start as int).say(
                HostCall::Changed,
            ),
            final(ctx).env() == old(ctx).env(),
    {
        let start = range.start;
        let text = run_text(c, 1);
        proof {
            assert(text@ =~= seq![c]);
        }
        self.begin_edit(ctx);
        self.edit_replace(ctx, range, text.as_str());
        self.set_offset(start);
        self.notify_changed(ctx);
    }

    #[verifier::rlimit(40)]
    fn insert_backspace<B: VimBufferMut, H: VimHost>(&mut self, ctx: &mut Ctx<B, H>)
        ensures
            *final(final(ctx).buf) == *final(old(ctx).buf),
            *final(final(ctx).host) == *final(old(ctx).host),
            hears(*final(ctx).host, final(self)@.told, *old(ctx).host, old(self)@.told),
            final(ctx).world(*final(self)) == old(ctx).world(*old(self)).backspace::<B>(),
            final(ctx).env() == old(ctx).env(),
    {
        proof {
            reveal(World::backspace);
        }
        if self.mode != Mode::Replace {
            self.back_over(ctx);
            return;
        }
        if let Some(over) = self.pop_overwritten() {
            let at = self.cursor.offset;
            if let (Some(c), Some(prev)) = (over, ctx.buf.prev_char_offset(at)) {
                self.restore(ctx, prev..at, c);
                return;
            }
            self.back_over(ctx);
            return;
        }
        self.back_over(ctx);
    }

    fn insert_tab<B: VimBufferMut, H: VimHost>(&mut self, ctx: &mut Ctx<B, H>)
        ensures
            *final(final(ctx).buf) == *final(old(ctx).buf),
            *final(final(ctx).host) == *final(old(ctx).host),
            hears(*final(ctx).host, final(self)@.told, *old(ctx).host, old(self)@.told),
            final(ctx).world(*final(self)) == old(ctx).world(*old(self)).tab::<B>(),
            final(ctx).env() == old(ctx).env(),
    {
        if self.options.expandtab {
            let stop: usize = if self.options.tabstop >= 1 {
                self.options.tabstop
            } else {
                1
            };
            let line = ctx.buf.offset_to_line(self.cursor.offset);
            proof {
                ctx.buf.doc_wf();
                ctx.buf.doc().lemma_line_of(self.cursor.offset as int);
            }
            let column = self.cursor.offset - ctx.buf.line_start(line);
            let spaces = run_text(' ', stop - column % stop);
            self.insert_text_at_cursor(ctx, spaces.as_str());
        } else {
            self.insert_text_at_cursor(ctx, "\t");
        }
    }

    fn insert_delete_ahead<B: VimBufferMut, H: VimHost>(&mut self, ctx: &mut Ctx<B, H>)
        ensures
            *final(final(ctx).buf) == *final(old(ctx).buf),
            *final(final(ctx).host) == *final(old(ctx).host),
            hears(*final(ctx).host, final(self)@.told, *old(ctx).host, old(self)@.told),
            final(ctx).world(*final(self)) == old(ctx).world(*old(self)).delete_ahead::<B>(),
            final(ctx).env() == old(ctx).env(),
    {
        proof {
            reveal(World::delete_ahead);
        }
        let at = self.cursor.offset;
        if let Some(next) = ctx.buf.next_char_offset(at) {
            self.begin_edit(ctx);
            self.edit_delete(ctx, at..next);
            self.notify_changed(ctx);
        }
    }

    /// `<C-w>`: delete the word before the cursor, like typing `b` then
    /// deleting. Word classes follow normal mode (`(`, `bar`, `)` are three
    /// separate words), and the deletion never crosses back over the line
    /// start.
    fn insert_delete_word_before<B: VimBufferMut, H: VimHost>(&mut self, ctx: &mut Ctx<B, H>)
        ensures
            *final(final(ctx).buf) == *final(old(ctx).buf),
            *final(final(ctx).host) == *final(old(ctx).host),
            hears(*final(ctx).host, final(self)@.told, *old(ctx).host, old(self)@.told),
            final(ctx).world(*final(self)) == old(ctx).world(*old(self)).cut_word_before::<B>(),
            final(ctx).env() == old(ctx).env(),
    {
        let at = self.cursor.offset;
        let line_start = ctx.buf.line_start(ctx.buf.offset_to_line(at));
        let word = prev_word_start(&*ctx.buf, at, false);
        let target: usize = if word >= line_start {
            word
        } else {
            line_start
        };
        if target < at {
            self.cut(ctx, target..at);
        }
    }

    fn insert_delete_to_line_start<B: VimBufferMut, H: VimHost>(&mut self, ctx: &mut Ctx<B, H>)
        ensures
            *final(final(ctx).buf) == *final(old(ctx).buf),
            *final(final(ctx).host) == *final(old(ctx).host),
            hears(*final(ctx).host, final(self)@.told, *old(ctx).host, old(self)@.told),
            final(ctx).world(*final(self)) == old(ctx).world(*old(self)).cut_line_before::<B>(),
            final(ctx).env() == old(ctx).env(),
    {
        let at = self.cursor.offset;
        let line_start = ctx.buf.line_start(ctx.buf.offset_to_line(at));
        if at > line_start {
            self.cut(ctx, line_start..at);
        }
    }

    fn insert_register<B: VimBufferMut, H: VimHost>(
        &mut self,
        ctx: &mut Ctx<B, H>,
        name: Option<char>,
    )
        ensures
            *final(final(ctx).buf) == *final(old(ctx).buf),
            *final(final(ctx).host) == *final(old(ctx).host),
            hears(*final(ctx).host, final(self)@.told, *old(ctx).host, old(self)@.told),
            final(ctx).world(*final(self)) == old(ctx).world(*old(self)).type_register::<B>(
                old(ctx).env(),
                name,
            ),
            final(ctx).env() == old(ctx).env(),
    {
        proof {
            reveal(World::type_register);
        }
        self.insert_register_pending = false;
        if let Some(name) = name {
            if let Some(data) = self.registers.get_for_paste(name, &*ctx.host) {
                self.insert_text_at_cursor(ctx, data.text.as_str());
            }
        }
    }

    fn insert_motion_of(name: &str) -> (m: Option<Motion>)
        ensures
            m == insert_motion(name@),
    {
        if same_str(name, "up") {
            Some(Motion::Up)
        } else if same_str(name, "down") {
            Some(Motion::Down)
        } else if same_str(name, "left") {
            Some(Motion::Left)
        } else if same_str(name, "right") {
            Some(Motion::Right)
        } else if same_str(name, "pageup") {
            Some(Motion::PageUp)
        } else if same_str(name, "pagedown") {
            Some(Motion::PageDown)
        } else {
            None
        }
    }

    fn insert_named<B: VimBufferMut, H: VimHost>(
        &mut self,
        ctx: &mut Ctx<B, H>,
        name: &str,
    ) -> (taken: bool)
        ensures
            *final(final(ctx).buf) == *final(old(ctx).buf),
            *final(final(ctx).host) == *final(old(ctx).host),
            hears(*final(ctx).host, final(self)@.told, *old(ctx).host, old(self)@.told),
            match old(ctx).world(*old(self)).insert_named::<B>(old(ctx).env(), name@) {
                Some(w) => taken && final(ctx).world(*final(self)) == w,
                None => !taken && final(ctx).world(*final(self)) == old(ctx).world(*old(self)),
            },
            final(ctx).env().clip == old(ctx).env().clip,
    {
        proof {
            reveal(World::insert_named);
        }
        if same_str(name, "enter") {
            self.insert_text_at_cursor(ctx, "\n");
            true
        } else if same_str(name, "backspace") {
            self.insert_backspace(ctx);
            true
        } else if same_str(name, "tab") {
            self.insert_tab(ctx);
            true
        } else if same_str(name, "delete") {
            self.insert_delete_ahead(ctx);
            true
        } else if same_str(name, "home") {
            let at = ctx.buf.line_start(ctx.buf.offset_to_line(self.cursor.offset));
            self.set_offset(at);
            true
        } else if same_str(name, "end") {
            let at = ctx.buf.line_end(ctx.buf.offset_to_line(self.cursor.offset));
            self.set_offset(at);
            true
        } else {
            match Self::insert_motion_of(name) {
                Some(motion) => {
                    let _ = self.goto_motion(ctx, motion, 1);
                    true
                },
                None => false,
            }
        }
    }

    fn insert_ctrl<B: VimBufferMut, H: VimHost>(
        &mut self,
        ctx: &mut Ctx<B, H>,
        key: &Key,
    ) -> (taken: bool)
        ensures
            *final(final(ctx).buf) == *final(old(ctx).buf),
            *final(final(ctx).host) == *final(old(ctx).host),
            hears(*final(ctx).host, final(self)@.told, *old(ctx).host, old(self)@.told),
            match old(ctx).world(*old(self)).insert_ctrl::<B>(key@.kind) {
                Some(w) => taken && final(ctx).world(*final(self)) == w,
                None => !taken && final(ctx).world(*final(self)) == old(ctx).world(*old(self)),
            },
            final(ctx).env() == old(ctx).env(),
    {
        proof {
            reveal(World::insert_ctrl);
        }
        if key.is_char('w') || key.is_char('W') {
            self.insert_delete_word_before(ctx);
            true
        } else if key.is_char('u') {
            self.insert_delete_to_line_start(ctx);
            true
        } else if key.is_char('r') {
            self.insert_register_pending = true;
            true
        } else {
            false
        }
    }

    fn decline(&mut self, c: Option<char>)
        ensures
            final(self)@ == if c is Some {
                Vim { pending_unknown_char: c, ..old(self)@ }
            } else {
                old(self)@
            },
    {
        if c.is_some() {
            self.pending_unknown_char = c;
        }
    }

    pub(crate) fn insert_key<B: VimBufferMut, H: VimHost>(
        &mut self,
        ctx: &mut Ctx<B, H>,
        key: &Key,
    ) -> (r: KeyResult)
        ensures
            *final(final(ctx).buf) == *final(old(ctx).buf),
            *final(final(ctx).host) == *final(old(ctx).host),
            hears(*final(ctx).host, final(self)@.told, *old(ctx).host, old(self)@.told),
            (final(ctx).world(*final(self)), r) == old(ctx).world(*old(self)).insert_key::<B>(
                old(ctx).env(),
                key@,
            ),
            final(ctx).env().clip == old(ctx).env().clip,
    {
        proof {
            reveal(World::insert_key);
        }
        // finish a pending <C-r>{register}
        if self.insert_register_pending {
            self.insert_register(ctx, key.printable_char());
            return KeyResult::Consumed;
        }
        // exit insert: <Esc>, <C-[>, <C-c>
        if key.same(&Key::escape()) || key.same(&Key::ctrl_char('[')) || key.same(
            &Key::ctrl_char('c'),
        ) {
            self.exit_insert(ctx);
            return KeyResult::Consumed;
        }
        match &key.kind {
            KeyKind::Named(name) => {
                if key.modifiers.is_plain() && self.insert_named(ctx, name.as_str()) {
                    return KeyResult::Consumed;
                }
            },
            KeyKind::Char(_) => {
                // Only alt/platform (cmd) disqualify a chord
                if key.modifiers.control && !key.modifiers.alt && !key.modifiers.platform
                    && self.insert_ctrl(ctx, key) {
                    return KeyResult::Consumed;
                }
            },
        }
        // printable text: let the host/IME decide *unless* an insert mapping
        // is interested (e.g. `jk` -> Esc)
        self.decline(key.printable_char());
        KeyResult::Unknown
    }
}

} // verus!
