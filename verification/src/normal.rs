//! The commands of Normal mode that are no motions, operators or insert
//! commands.
use crate::buffer::{clamp_to_line_end, VimBufferMut};
use crate::commands::counted_lines;
use crate::doc::{max, min, Doc};
use crate::edits::{join_lines, put, yank_span};
use crate::engine::next_number;
use crate::host::{asked, hears, lemma_one_call, put_in_place, Asked, Env, HostCall, ScrollAnchor, VimHost};
use crate::mode::{Mode, VisualKind};
use crate::number::number_near;
use crate::operators::{apply, delete_chars, toggle_chars};
use crate::ops::{line_span, lines_span, span, OpSpan, Operator};
use crate::registers::UNNAMED;
use crate::replay::{copies, keys_of};
use crate::state::{CharArgCmd, Ctx, InsertKind, Vim, VimState, World};
use crate::tables::NormalCmd;
use vstd::prelude::*;

verus! {

// ---- edits -----------------------------------------------------------------------------------------

impl Vim {
    /// The register for a put.
    pub open spec fn put_register(self) -> char {
        match self.register {
            Some(name) => name,
            None => UNNAMED,
        }
    }
}

impl World {
    /// The edit that a command makes.
    #[verifier::opaque]
    pub open spec fn edit_of<B: VimBufferMut>(self, env: Env, cmd: NormalCmd, count: int) -> World {
        match cmd {
            NormalCmd::DeleteCharForward => self.delete_chars::<B>(count, false),
            NormalCmd::DeleteCharBackward => self.delete_chars::<B>(count, true),
            NormalCmd::ToggleChar => self.toggle_chars::<B>(count),
            NormalCmd::PutAfter => self.put::<B>(env.clip, self.vim.put_register(), count, true),
            NormalCmd::PutBefore => self.put::<B>(env.clip, self.vim.put_register(), count, false),
            NormalCmd::Join => self.join_lines::<B>(count, false),
            NormalCmd::JoinLiteral => self.join_lines::<B>(count, true),
            NormalCmd::LinewiseOp(op) => self.apply::<B>(
                op,
                self.counted_lines(count),
                self.vim.register,
            ),
            _ => self,
        }
    }

    /// A command that edits, as one undo step.
    #[verifier::opaque]
    pub open spec fn edit_command<B: VimBufferMut>(self, env: Env, cmd: NormalCmd) -> World {
        self.without_count().begin_edit().edit_of::<B>(
            env,
            cmd,
            self.vim.total_count(),
        ).end_edit().bump::<B>()
    }

    /// `s`: characters deleted, inserting begun in their place.
    #[verifier::opaque]
    pub open spec fn substitute_chars<B: VimBufferMut>(self) -> World {
        self.without_count().begin_edit().delete_chars::<B>(
            self.vim.total_count(),
            false,
        ).start_insert::<B>(InsertKind::Change).bump::<B>()
    }

    /// An operator on a span as a command of its own.
    #[verifier::opaque]
    pub open spec fn apply_to<B: VimBufferMut>(self, op: Operator, s: OpSpan) -> World {
        let w = self.begin_edit();
        w.apply::<B>(op, s, w.vim.register).bump::<B>()
    }

    /// What is behind the cursor in its line.
    pub open spec fn rest_of_line(self) -> OpSpan {
        span(self.cursor(), self.doc.line_end(self.line()), false)
    }

    /// `C`: the rest of the line changed, at its end text is appended.
    pub open spec fn change_to_end<B: VimBufferMut>(self) -> World {
        if self.cursor() < self.doc.line_end(self.line()) {
            self.apply_to::<B>(Operator::Change, self.rest_of_line())
        } else {
            self.start_insert::<B>(InsertKind::AppendLineEnd)
        }
    }

    /// `D`: the rest of the line deleted.
    pub open spec fn delete_to_end<B: VimBufferMut>(self) -> World {
        if self.cursor() < self.doc.line_end(self.line()) {
            self.apply_to::<B>(Operator::Delete, self.rest_of_line())
        } else {
            self
        }
    }

    /// `Y`: lines yanked.
    #[verifier::opaque]
    pub open spec fn yank_lines<B: VimBufferMut>(self) -> World {
        let w = self.without_count();
        w.yank_span::<B>(w.counted_lines(self.vim.total_count()), w.vim.register)
    }
}

impl VimState {
    pub(crate) fn put_register(&self) -> (c: char)
        ensures
            c == self@.put_register(),
    {
        match self.register {
            Some(name) => name,
            None => UNNAMED,
        }
    }

    fn edit_of<B: VimBufferMut, H: VimHost>(
        &mut self,
        ctx: &mut Ctx<B, H>,
        cmd: NormalCmd,
        count: usize,
    )
        ensures
            *final(final(ctx).buf) == *final(old(ctx).buf),
            *final(final(ctx).host) == *final(old(ctx).host),
            hears(*final(ctx).host, final(self)@.told, *old(ctx).host, old(self)@.told),
            final(ctx).world(*final(self)) == old(ctx).world(*old(self)).edit_of::<B>(
                old(ctx).env(),
                cmd,
                count as int,
            ),
    {
        proof {
            reveal(World::edit_of);
        }
        let register = self.put_register();
        match cmd {
            NormalCmd::DeleteCharForward => delete_chars(self, ctx, count, false),
            NormalCmd::DeleteCharBackward => delete_chars(self, ctx, count, true),
            NormalCmd::ToggleChar => toggle_chars(self, ctx, count),
            NormalCmd::PutAfter => put(self, ctx, register, count, true),
            NormalCmd::PutBefore => put(self, ctx, register, count, false),
            NormalCmd::Join => join_lines(self, ctx, count, false),
            NormalCmd::JoinLiteral => join_lines(self, ctx, count, true),
            NormalCmd::LinewiseOp(op) => {
                let s = counted_lines(&*ctx.buf, self.cursor.offset, count);
                let register = self.register;
                apply(self, ctx, op, &s, register)
            },
            _ => {},
        }
    }

    fn edit_command<B: VimBufferMut, H: VimHost>(&mut self, ctx: &mut Ctx<B, H>, cmd: NormalCmd)
        ensures
            *final(final(ctx).buf) == *final(old(ctx).buf),
            *final(final(ctx).host) == *final(old(ctx).host),
            hears(*final(ctx).host, final(self)@.told, *old(ctx).host, old(self)@.told),
            final(ctx).world(*final(self)) == old(ctx).world(*old(self)).edit_command::<B>(
                old(ctx).env(),
                cmd,
            ),
    {
        proof {
            reveal(World::edit_command);
        }
        let count = self.take_total_count();
        self.begin_edit(ctx);
        self.edit_of(ctx, cmd, count);
        self.end_edit();
        self.bump(ctx);
    }

    fn substitute_chars<B: VimBufferMut, H: VimHost>(&mut self, ctx: &mut Ctx<B, H>)
        ensures
            *final(final(ctx).buf) == *final(old(ctx).buf),
            *final(final(ctx).host) == *final(old(ctx).host),
            hears(*final(ctx).host, final(self)@.told, *old(ctx).host, old(self)@.told),
            final(ctx).world(*final(self)) == old(ctx).world(*old(self)).substitute_chars::<B>(),
    {
        proof {
            reveal(World::substitute_chars);
        }
        let count = self.take_total_count();
        self.begin_edit(ctx);
        delete_chars(self, ctx, count, false);
        self.start_insert(ctx, InsertKind::Change);
        self.bump(ctx);
    }

    fn apply_to<B: VimBufferMut, H: VimHost>(
        &mut self,
        ctx: &mut Ctx<B, H>,
        op: Operator,
        s: &OpSpan,
    )
        ensures
            *final(final(ctx).buf) == *final(old(ctx).buf),
            *final(final(ctx).host) == *final(old(ctx).host),
            hears(*final(ctx).host, final(self)@.told, *old(ctx).host, old(self)@.told),
            final(ctx).world(*final(self)) == old(ctx).world(*old(self)).apply_to::<B>(op, *s),
    {
        proof {
            reveal(World::apply_to);
        }
        self.begin_edit(ctx);
        let register = self.register;
        apply(self, ctx, op, s, register);
        self.bump(ctx);
    }

    fn substitute_line<B: VimBufferMut, H: VimHost>(&mut self, ctx: &mut Ctx<B, H>)
        ensures
            *final(final(ctx).buf) == *final(old(ctx).buf),
            *final(final(ctx).host) == *final(old(ctx).host),
            hears(*final(ctx).host, final(self)@.told, *old(ctx).host, old(self)@.told),
            final(ctx).world(*final(self)) == ({
                let w = old(ctx).world(*old(self));
                w.apply_to::<B>(Operator::Change, line_span(w.doc, w.line(), w.line()))
            }),
    {
        let line = ctx.buf.offset_to_line(self.cursor.offset);
        let s = lines_span(&*ctx.buf, line, line);
        self.apply_to(ctx, Operator::Change, &s);
    }

    fn change_to_end<B: VimBufferMut, H: VimHost>(&mut self, ctx: &mut Ctx<B, H>)
        ensures
            *final(final(ctx).buf) == *final(old(ctx).buf),
            *final(final(ctx).host) == *final(old(ctx).host),
            hears(*final(ctx).host, final(self)@.told, *old(ctx).host, old(self)@.told),
            final(ctx).world(*final(self)) == old(ctx).world(*old(self)).change_to_end::<B>(),
    {
        let start = self.cursor.offset;
        let end = ctx.buf.line_end(ctx.buf.offset_to_line(start));
        if start < end {
            let s = OpSpan { start, end, linewise: false };
            self.apply_to(ctx, Operator::Change, &s);
        } else {
            self.start_insert(ctx, InsertKind::AppendLineEnd);
        }
    }

    fn delete_to_end<B: VimBufferMut, H: VimHost>(&mut self, ctx: &mut Ctx<B, H>)
        ensures
            *final(final(ctx).buf) == *final(old(ctx).buf),
            *final(final(ctx).host) == *final(old(ctx).host),
            hears(*final(ctx).host, final(self)@.told, *old(ctx).host, old(self)@.told),
            final(ctx).world(*final(self)) == old(ctx).world(*old(self)).delete_to_end::<B>(),
    {
        let start = self.cursor.offset;
        let end = ctx.buf.line_end(ctx.buf.offset_to_line(start));
        if start < end {
            let s = OpSpan { start, end, linewise: false };
            self.apply_to(ctx, Operator::Delete, &s);
        }
    }

    fn yank_lines<B: VimBufferMut, H: VimHost>(&mut self, ctx: &mut Ctx<B, H>)
        ensures
            *final(final(ctx).buf) == *final(old(ctx).buf),
            *final(final(ctx).host) == *final(old(ctx).host),
            hears(*final(ctx).host, final(self)@.told, *old(ctx).host, old(self)@.told),
            final(ctx).world(*final(self)) == old(ctx).world(*old(self)).yank_lines::<B>(),
    {
        proof {
            reveal(World::yank_lines);
        }
        let count = self.take_total_count();
        let s = counted_lines(&*ctx.buf, self.cursor.offset, count);
        let register = self.register;
        yank_span(self, ctx, &s, register);
    }
}

// ---- undo ---------------------------------------------------------------------------------------------------

/// What the host answers when it is asked to undo or redo: where the cursor
/// goes, if there was anything to undo, and the text then.
pub struct Reply {
    pub answer: Option<usize>,
    pub doc: Doc,
    pub edition: u64,
}

/// The call that asks for an undo or redo.
pub open spec fn undo_call(redo: bool, a: Asked) -> HostCall {
    if redo {
        HostCall::Redo(a)
    } else {
        HostCall::Undo(a)
    }
}

impl World {
    /// The cursor where an undo puts it; matches found before are outdated.
    pub open spec fn undone_to(self, o: usize) -> World {
        self.with_vim(
            Vim {
                edit_generation: next_number(self.vim.edit_generation),
                ..self.vim.at(self.doc.clamp(min(o as int, self.doc.len())))
            },
        )
    }

    /// An undo or redo asked for in this world, and answered by `reply`.
    pub open spec fn asks<B: VimBufferMut>(self, reply: Reply) -> Asked {
        Asked {
            doc: self.doc,
            edition: self.edition,
            editable: self.editable,
            put: put_in_place::<B>(self.doc),
            reply,
        }
    }

    /// One undo or redo that the host has answered.
    #[verifier::opaque]
    pub open spec fn take_reply<B: VimBufferMut>(self, redo: bool, reply: Reply) -> World {
        let w = World {
            doc: if self.editable {
                reply.doc
            } else {
                self.doc
            },
            edition: if self.editable {
                reply.edition
            } else {
                self.edition
            },
            ..self
        };
        let given = Reply { answer: reply.answer, doc: w.doc, edition: w.edition };
        let w = w.say(undo_call(redo, self.asks::<B>(given)));
        match reply.answer {
            Some(o) => w.undone_to(o),
            None => w.say(HostCall::Bell),
        }
    }

    /// `n` undos or redos, as the host answers them; the first that it
    /// declines is the last.
    pub open spec fn take_replies<B: VimBufferMut>(
        self,
        redo: bool,
        n: int,
        replies: Seq<Reply>,
    ) -> World
        decreases n,
    {
        if n <= 0 {
            self
        } else {
            let w = self.take_reply::<B>(redo, replies[0]);
            if replies[0].answer is Some {
                w.take_replies::<B>(redo, n - 1, replies.drop_first())
            } else {
                w
            }
        }
    }

    /// `u` and `<C-r>`.
    #[verifier::opaque]
    pub open spec fn undo_command<B: VimBufferMut>(self, redo: bool, replies: Seq<Reply>) -> World {
        self.without_count().take_replies::<B>(
            redo,
            self.vim.total_count(),
            replies,
        ).republish::<B>().say(HostCall::Changed)
    }
}

impl VimState {
    fn count_edit(&mut self)
        ensures
            final(self)@ == (Vim {
                edit_generation: next_number(old(self)@.edit_generation),
                ..old(self)@
            }),
    {
        self.edit_generation = crate::engine::count_up(self.edit_generation);
    }

    fn tell_undo<B: VimBufferMut, H: VimHost>(&mut self, ctx: &mut Ctx<B, H>, redo: bool) -> (answer:
        Option<usize>)
        ensures
            *final(final(ctx).buf) == *final(old(ctx).buf),
            *final(final(ctx).host) == *final(old(ctx).host),
            hears(*final(ctx).host, final(self)@.told, *old(ctx).host, old(self)@.told),
            final(ctx).world(*final(self)) == (World {
                doc: final(ctx).buf.doc(),
                edition: final(ctx).buf.edition(),
                ..old(ctx).world(*old(self))
            }).say(undo_call(redo, asked(*old(ctx).buf, answer, *final(ctx).buf))),
            !old(ctx).buf.editable() ==> final(ctx).buf.doc() == old(ctx).buf.doc()
                && final(ctx).buf.edition() == old(ctx).buf.edition(),
    {
        if redo {
            let answer = ctx.host.redo(ctx.buf);
            proof {
                let call = undo_call(redo, asked(*old(ctx).buf, answer, *ctx.buf));
                self.told@ = self.told@.push(call);
                lemma_one_call(*ctx.host, *old(ctx).host, old(self)@.told, call);
            }
            answer
        } else {
            let answer = ctx.host.undo(ctx.buf);
            proof {
                let call = undo_call(redo, asked(*old(ctx).buf, answer, *ctx.buf));
                self.told@ = self.told@.push(call);
                lemma_one_call(*ctx.host, *old(ctx).host, old(self)@.told, call);
            }
            answer
        }
    }

    fn undone_to<B: VimBufferMut, H: VimHost>(&mut self, ctx: &mut Ctx<B, H>, o: usize)
        ensures
            *final(final(ctx).buf) == *final(old(ctx).buf),
            *final(final(ctx).host) == *final(old(ctx).host),
            hears(*final(ctx).host, final(self)@.told, *old(ctx).host, old(self)@.told),
            final(ctx).world(*final(self)) == old(ctx).world(*old(self)).undone_to(o),
    {
        let len = ctx.buf.len();
        let at = clamp_to_line_end(
            &*ctx.buf,
            if o <= len {
                o
            } else {
                len
            },
        );
        self.set_offset(at);
        self.count_edit();
    }

    fn ask_undo<B: VimBufferMut, H: VimHost>(&mut self, ctx: &mut Ctx<B, H>, redo: bool) -> (r: (
        bool,
        Ghost<Reply>,
    ))
        ensures
            *final(final(ctx).buf) == *final(old(ctx).buf),
            *final(final(ctx).host) == *final(old(ctx).host),
            hears(*final(ctx).host, final(self)@.told, *old(ctx).host, old(self)@.told),
            final(ctx).world(*final(self)) == old(ctx).world(*old(self)).take_reply::<B>(redo, r.1@),
            r.0 == r.1@.answer is Some,
    {
        proof {
            reveal(World::take_reply);
        }
        let answer = self.tell_undo(ctx, redo);
        let ghost reply = Reply { answer, doc: ctx.buf.doc(), edition: ctx.buf.edition() };
        match answer {
            Some(o) => {
                self.undone_to(ctx, o);
                (true, Ghost(reply))
            },
            None => {
                self.bell(ctx);
                (false, Ghost(reply))
            },
        }
    }

    fn ask_undos<B: VimBufferMut, H: VimHost>(
        &mut self,
        ctx: &mut Ctx<B, H>,
        redo: bool,
        count: usize,
    ) -> (replies: Ghost<Seq<Reply>>)
        ensures
            *final(final(ctx).buf) == *final(old(ctx).buf),
            *final(final(ctx).host) == *final(old(ctx).host),
            hears(*final(ctx).host, final(self)@.told, *old(ctx).host, old(self)@.told),
            final(ctx).world(*final(self)) == old(ctx).world(*old(self)).take_replies::<B>(
                redo,
                count as int,
                replies@,
            ),
    {
        let ghost w = ctx.world(*self);
        let ghost mut seen = Seq::<Reply>::empty();
        let mut left: usize = count;
        proof {
            assert forall|rest: Seq<Reply>|
                w.take_replies::<B>(redo, count as int, #[trigger] (seen + rest)) == w.take_replies::<B>(
                    redo,
                    left as int,
                    rest,
                ) by {
                assert(seen + rest =~= rest);
            }
        }
        while left > 0
            invariant
                *final(ctx.buf) == *final(old(ctx).buf),
                *final(ctx.host) == *final(old(ctx).host),
                hears(*ctx.host, self@.told, *old(ctx).host, old(self)@.told),
                left <= count,
                forall|rest: Seq<Reply>|
                    w.take_replies::<B>(redo, count as int, #[trigger] (seen + rest)) == ctx.world(
                        *self,
                    ).take_replies::<B>(redo, left as int, rest),
            decreases left,
        {
            let ghost before = ctx.world(*self);
            let ghost left0 = left as int;
            let (more, Ghost(reply)) = self.ask_undo(ctx, redo);
            let ghost now = ctx.world(*self);
            let ghost seen0 = seen;
            proof {
                seen = seen.push(reply);
            }
            if more {
                left = left - 1;
            } else {
                left = 0;
            }
            proof {
                assert forall|rest: Seq<Reply>|
                    w.take_replies::<B>(redo, count as int, #[trigger] (seen + rest))
                        == now.take_replies::<B>(redo, left as int, rest) by {
                    let tail = seq![reply] + rest;
                    assert(seen + rest =~= seen0 + tail);
                    assert(tail.drop_first() =~= rest);
                    assert(tail[0] == reply);
                    assert(w.take_replies::<B>(redo, count as int, seen0 + tail)
                        == before.take_replies::<B>(redo, left0, tail));
                }
            }
        }
        proof {
            assert(seen + Seq::<Reply>::empty() =~= seen);
        }
        Ghost(seen)
    }

    fn undo_command<B: VimBufferMut, H: VimHost>(&mut self, ctx: &mut Ctx<B, H>, redo: bool) -> (r:
        Ghost<Seq<Reply>>)
        ensures
            *final(final(ctx).buf) == *final(old(ctx).buf),
            *final(final(ctx).host) == *final(old(ctx).host),
            hears(*final(ctx).host, final(self)@.told, *old(ctx).host, old(self)@.told),
            final(ctx).world(*final(self)) == old(ctx).world(*old(self)).undo_command::<B>(
                redo,
                r@,
            ),
    {
        proof {
            reveal(World::undo_command);
        }
        let count = self.take_total_count();
        let replies = self.ask_undos(ctx, redo, count);
        self.republish_search(ctx);
        self.notify_changed(ctx);
        replies
    }
}

// ---- the view ------------------------------------------------------------------------------------------------

/// Where a view command puts the cursor's line.
pub open spec fn anchor_of(cmd: NormalCmd) -> ScrollAnchor {
    match cmd {
        NormalCmd::ScrollCenter => ScrollAnchor::Center,
        NormalCmd::ScrollTop => ScrollAnchor::Top,
        _ => ScrollAnchor::Bottom,
    }
}

impl World {
    /// `zz`, `zt`, `zb`.
    pub open spec fn scroll_view(self, cmd: NormalCmd) -> World {
        self.say(HostCall::ScrollAnchored(self.line(), anchor_of(cmd)))
    }

    /// `<C-e>` and `<C-y>`: the view moved by `count` lines, as far as the
    /// cursor's line stays in it.
    #[verifier::opaque]
    pub open spec fn scroll_lines(self, env: Env, down: bool) -> World {
        let count = max(self.vim.total_count(), 1);
        let first = env.seen.0 as int;
        let top = if down {
            min(first + count, self.doc.line_count() - 1)
        } else {
            max(first - count, 0)
        };
        let w = self.without_count();
        w.say(HostCall::ScrollAnchored(top, ScrollAnchor::Top)).say(HostCall::Scroll(w.line()))
    }
}

impl VimState {
    fn scroll_view<B: VimBufferMut, H: VimHost>(&mut self, ctx: &mut Ctx<B, H>, cmd: NormalCmd)
        ensures
            *final(final(ctx).buf) == *final(old(ctx).buf),
            *final(final(ctx).host) == *final(old(ctx).host),
            hears(*final(ctx).host, final(self)@.told, *old(ctx).host, old(self)@.told),
            final(ctx).world(*final(self)) == old(ctx).world(*old(self)).scroll_view(cmd),
    {
        let line = ctx.buf.offset_to_line(self.cursor.offset);
        let anchor = match cmd {
            NormalCmd::ScrollCenter => ScrollAnchor::Center,
            NormalCmd::ScrollTop => ScrollAnchor::Top,
            _ => ScrollAnchor::Bottom,
        };
        self.scroll_anchored(ctx, line, anchor);
    }

    fn scroll_lines<B: VimBufferMut, H: VimHost>(&mut self, ctx: &mut Ctx<B, H>, down: bool)
        ensures
            *final(final(ctx).buf) == *final(old(ctx).buf),
            *final(final(ctx).host) == *final(old(ctx).host),
            hears(*final(ctx).host, final(self)@.told, *old(ctx).host, old(self)@.told),
            final(ctx).world(*final(self)) == old(ctx).world(*old(self)).scroll_lines(
                old(ctx).env(),
                down,
            ),
    {
        proof {
            reveal(World::scroll_lines);
            ctx.buf.doc_wf();
        }
        let total = self.take_total_count();
        let count: usize = if total >= 1 {
            total
        } else {
            1
        };
        let (first, _) = ctx.host.viewport();
        let last = ctx.buf.line_count() - 1;
        let line = ctx.buf.offset_to_line(self.cursor.offset);
        let top: usize = if down {
            if first <= last && count <= last - first {
                first + count
            } else {
                last
            }
        } else if first >= count {
            first - count
        } else {
            0
        };
        self.scroll_anchored(ctx, top, ScrollAnchor::Top);
        self.scroll_to(ctx, line);
    }
}

// ---- the lists -------------------------------------------------------------------------------------------------

/// The offset at `pos` of a list.
pub open spec fn entry(list: Seq<usize>, pos: int, otherwise: usize) -> usize {
    if 0 <= pos < list.len() {
        list[pos]
    } else {
        otherwise
    }
}

fn entry_of(list: &Vec<usize>, pos: usize, otherwise: usize) -> (o: usize)
    ensures
        o == entry(list@, pos as int, otherwise),
{
    if pos < list.len() {
        list[pos]
    } else {
        otherwise
    }
}

/// `n` entries back or on from `pos`, as far as there are any.
pub open spec fn list_pos(len: int, pos: int, n: int, back: bool) -> int {
    if back {
        max(pos - n, 0)
    } else {
        max(pos, min(pos + n, len - 1))
    }
}

/// There are `n` entries back or on from `pos`.
pub open spec fn can_step(len: int, pos: int, n: int, back: bool) -> bool {
    if back {
        n <= pos
    } else {
        pos + n < len
    }
}

fn step_list(len: usize, pos: usize, n: usize, back: bool) -> (r: (usize, bool))
    ensures
        r.0 == list_pos(len as int, pos as int, n as int, back),
        r.1 == can_step(len as int, pos as int, n as int, back),
{
    if back {
        if n <= pos {
            (pos - n, true)
        } else {
            (0, false)
        }
    } else if pos < len && n < len - pos {
        (pos + n, true)
    } else if pos < len {
        (len - 1, false)
    } else {
        (pos, false)
    }
}

impl World {
    /// The cursor at the current entry of the changelist.
    #[verifier::opaque]
    pub open spec fn show_change(self) -> World {
        let to = entry(self.vim.changes, self.vim.change_pos as int, self.vim.cursor.offset);
        let at = self.moved_to(self.doc.clamp(min(to as int, self.doc.len())));
        at.say(HostCall::Scroll(at.line())).say(HostCall::Changed)
    }

    /// `n` entries back or on in the changelist, as far as there are any.
    #[verifier::opaque]
    pub open spec fn step_changes(self, n: int, older: bool) -> World {
        let len = self.vim.changes.len() as int;
        let pos = self.vim.change_pos as int;
        if len == 0 {
            self.fail("E664: changelist is empty"@)
        } else {
            let w = self.with_vim(
                Vim { change_pos: list_pos(len, pos, n, older) as usize, ..self.vim },
            );
            if can_step(len, pos, n, older) {
                w.show_change()
            } else {
                w.fail("E662: At start of changelist"@).show_change()
            }
        }
    }

    /// `g;` and `g,`.
    pub open spec fn go_change(self, older: bool) -> World {
        self.without_count().step_changes(max(self.vim.total_count(), 1), older)
    }

    /// One step in the jumplist.
    #[verifier::opaque]
    pub open spec fn step_jump(self, back: bool) -> World {
        let pos = list_pos(self.vim.jumps.len() as int, self.vim.jump_pos as int, 1, back);
        let w = self.with_vim(Vim { jump_pos: pos as usize, ..self.vim });
        let at = w.moved_to(w.doc.clamp(entry(w.vim.jumps, pos, w.vim.cursor.offset) as int));
        at.say(HostCall::Scroll(at.line()))
    }

    /// `n` steps in the jumplist; the first that cannot be made is the last.
    pub open spec fn step_jumps(self, n: int, back: bool) -> World
        decreases n,
    {
        if n <= 0 {
            self
        } else if can_step(self.vim.jumps.len() as int, self.vim.jump_pos as int, 1, back) {
            self.step_jump(back).step_jumps(n - 1, back)
        } else {
            self.say(HostCall::Bell)
        }
    }

    /// `<C-o>` and `<C-i>`.
    #[verifier::opaque]
    pub open spec fn go_jump(self, back: bool) -> World {
        self.without_count().step_jumps(max(self.vim.total_count(), 1), back).say(
            HostCall::Changed,
        )
    }
}

impl VimState {
    pub(crate) fn take_count_or_one(&mut self) -> (n: usize)
        ensures
            n == max(old(self)@.total_count(), 1),
            final(self)@ == old(self)@.without_count(),
    {
        let n = self.take_total_count();
        if n >= 1 {
            n
        } else {
            1
        }
    }

    fn place_and_scroll<B: VimBufferMut, H: VimHost>(&mut self, ctx: &mut Ctx<B, H>, offset: usize)
        ensures
            *final(final(ctx).buf) == *final(old(ctx).buf),
            *final(final(ctx).host) == *final(old(ctx).host),
            hears(*final(ctx).host, final(self)@.told, *old(ctx).host, old(self)@.told),
            final(ctx).world(*final(self)) == ({
                let w = old(ctx).world(*old(self));
                let at = w.moved_to(w.doc.clamp(offset as int));
                at.say(HostCall::Scroll(at.line()))
            }),
    {
        self.place_in_line(ctx, offset);
        let line = ctx.buf.offset_to_line(self.cursor.offset);
        self.scroll_to(ctx, line);
    }

    fn set_change_pos(&mut self, pos: usize)
        ensures
            final(self)@ == (Vim { change_pos: pos, ..old(self)@ }),
    {
        self.change_pos = pos;
    }

    fn show_change<B: VimBufferMut, H: VimHost>(&mut self, ctx: &mut Ctx<B, H>)
        ensures
            *final(final(ctx).buf) == *final(old(ctx).buf),
            *final(final(ctx).host) == *final(old(ctx).host),
            hears(*final(ctx).host, final(self)@.told, *old(ctx).host, old(self)@.told),
            final(ctx).world(*final(self)) == old(ctx).world(*old(self)).show_change(),
    {
        proof {
            reveal(World::show_change);
        }
        let to = entry_of(&self.changes, self.change_pos, self.cursor.offset);
        let len = ctx.buf.len();
        self.place_and_scroll(
            ctx,
            if to <= len {
                to
            } else {
                len
            },
        );
        self.notify_changed(ctx);
    }

    fn step_changes<B: VimBufferMut, H: VimHost>(
        &mut self,
        ctx: &mut Ctx<B, H>,
        n: usize,
        older: bool,
    )
        ensures
            *final(final(ctx).buf) == *final(old(ctx).buf),
            *final(final(ctx).host) == *final(old(ctx).host),
            hears(*final(ctx).host, final(self)@.told, *old(ctx).host, old(self)@.told),
            final(ctx).world(*final(self)) == old(ctx).world(*old(self)).step_changes(
                n as int,
                older,
            ),
    {
        proof {
            reveal(World::step_changes);
        }
        if self.changes.len() == 0 {
            self.fail(ctx, "E664: changelist is empty");
            return;
        }
        let (pos, can) = step_list(self.changes.len(), self.change_pos, n, older);
        self.set_change_pos(pos);
        let ghost moved = ctx.world(*self);
        proof {
            let w = old(ctx).world(*old(self));
            assert(moved == w.with_vim(Vim { change_pos: pos, ..w.vim }));
        }
        if can {
            self.show_change(ctx);
            assert(ctx.world(*self) == moved.show_change());
        } else {
            self.fail(ctx, "E662: At start of changelist");
            self.show_change(ctx);
            assert(ctx.world(*self) == moved.fail("E662: At start of changelist"@).show_change());
        }
    }

    fn go_change<B: VimBufferMut, H: VimHost>(&mut self, ctx: &mut Ctx<B, H>, older: bool)
        ensures
            *final(final(ctx).buf) == *final(old(ctx).buf),
            *final(final(ctx).host) == *final(old(ctx).host),
            hears(*final(ctx).host, final(self)@.told, *old(ctx).host, old(self)@.told),
            final(ctx).world(*final(self)) == old(ctx).world(*old(self)).go_change(older),
    {
        let n = self.take_count_or_one();
        self.step_changes(ctx, n, older);
    }

    fn step_jump<B: VimBufferMut, H: VimHost>(&mut self, ctx: &mut Ctx<B, H>, pos: usize)
        ensures
            *final(final(ctx).buf) == *final(old(ctx).buf),
            *final(final(ctx).host) == *final(old(ctx).host),
            hears(*final(ctx).host, final(self)@.told, *old(ctx).host, old(self)@.told),
            final(ctx).world(*final(self)) == ({
                let w = old(ctx).world(*old(self));
                let w = w.with_vim(Vim { jump_pos: pos, ..w.vim });
                let at = w.moved_to(
                    w.doc.clamp(entry(w.vim.jumps, pos as int, w.vim.cursor.offset) as int),
                );
                at.say(HostCall::Scroll(at.line()))
            }),
    {
        self.jump_pos = pos;
        let to = entry_of(&self.jumps, pos, self.cursor.offset);
        self.place_and_scroll(ctx, to);
    }

    fn go_jump<B: VimBufferMut, H: VimHost>(&mut self, ctx: &mut Ctx<B, H>, back: bool)
        ensures
            *final(final(ctx).buf) == *final(old(ctx).buf),
            *final(final(ctx).host) == *final(old(ctx).host),
            hears(*final(ctx).host, final(self)@.told, *old(ctx).host, old(self)@.told),
            final(ctx).world(*final(self)) == old(ctx).world(*old(self)).go_jump(back),
    {
        let mut left: usize = self.take_count_or_one();
        let ghost want = ctx.world(*self).step_jumps(left as int, back);
        while left > 0
            invariant
                *final(ctx.buf) == *final(old(ctx).buf),
                *final(ctx.host) == *final(old(ctx).host),
                hears(*ctx.host, self@.told, *old(ctx).host, old(self)@.told),
                ctx.world(*self).step_jumps(left as int, back) == want,
            decreases left,
        {
            let (pos, can) = step_list(self.jumps.len(), self.jump_pos, 1, back);
            proof {
                reveal(World::step_jump);
            }
            if can {
                self.step_jump(ctx, pos);
                left = left - 1;
            } else {
                self.bell(ctx);
                left = 0;
            }
        }
        proof {
            reveal(World::go_jump);
        }
        self.notify_changed(ctx);
    }
}

// ---- the rest -----------------------------------------------------------------------------------------------------

impl World {
    /// `.`: the last change repeated.
    #[verifier::opaque]
    pub open spec fn repeat_change(self) -> World {
        let w = self.without_count();
        if w.vim.last_change.len() == 0 {
            w.say(HostCall::Bell)
        } else {
            w.with_vim(w.vim.replay(w.vim.last_change, max(self.vim.total_count(), 1)))
        }
    }

    /// `<C-a>` and `<C-x>`.
    #[verifier::opaque]
    pub open spec fn count_on<B: VimBufferMut>(self, up: bool) -> World {
        let w = self.without_count();
        let by = min(max(self.vim.total_count(), 1), i64::MAX as int);
        match number_near(w.doc, w.cursor()) {
            Some((a, b)) => w.count_number::<B>(
                a,
                b,
                if up {
                    by
                } else {
                    -by
                },
            ),
            None => w.fail("E18: Unexpected end of file"@),
        }
    }

    /// `gv`: the last selection made again.
    pub open spec fn restore_visual(self) -> World {
        match self.vim.last_visual {
            Some((lo, hi, kind)) => self.with_vim(
                Vim {
                    visual_anchor: Some(lo),
                    mode: Mode::Visual { kind },
                    ..self.vim.at(min(max(hi - 1, 0), self.doc.len()))
                },
            ),
            None => self,
        }
    }

    /// A command of Normal mode. `replies` is what the host answers to `u` and
    /// `<C-r>`.
    #[verifier::opaque]
    pub open spec fn normal_cmd<B: VimBufferMut>(
        self,
        env: Env,
        cmd: NormalCmd,
        replies: Seq<Reply>,
    ) -> World {
        match cmd {
            NormalCmd::DeleteCharForward
            | NormalCmd::DeleteCharBackward
            | NormalCmd::ToggleChar
            | NormalCmd::PutAfter
            | NormalCmd::PutBefore
            | NormalCmd::Join
            | NormalCmd::JoinLiteral
            | NormalCmd::LinewiseOp(_) => self.edit_command::<B>(env, cmd),
            NormalCmd::SubstituteChar => self.substitute_chars::<B>(),
            NormalCmd::SubstituteLine => self.apply_to::<B>(
                Operator::Change,
                line_span(self.doc, self.line(), self.line()),
            ),
            NormalCmd::ChangeToEnd => self.change_to_end::<B>(),
            NormalCmd::DeleteToEnd => self.delete_to_end::<B>(),
            NormalCmd::YankLine => self.yank_lines::<B>(),
            NormalCmd::Undo => self.undo_command::<B>(false, replies),
            NormalCmd::Redo => self.undo_command::<B>(true, replies),
            NormalCmd::ReplaceChar => self.await_char(CharArgCmd::Replace),
            NormalCmd::MarkSet => self.await_char(CharArgCmd::MarkSet),
            NormalCmd::RecordMacro => self.await_char(CharArgCmd::MacroRecord),
            NormalCmd::PlayMacro => self.await_char(CharArgCmd::MacroPlay),
            NormalCmd::JumpMark { linewise } => self.await_char(CharArgCmd::JumpMark { linewise }),
            NormalCmd::ScrollCenter | NormalCmd::ScrollTop | NormalCmd::ScrollBottom => {
                self.scroll_view(cmd)
            },
            NormalCmd::ScrollLineDown => self.scroll_lines(env, true),
            NormalCmd::ScrollLineUp => self.scroll_lines(env, false),
            NormalCmd::RestoreVisual => self.restore_visual(),
            NormalCmd::RepeatChange => self.repeat_change(),
            NormalCmd::JumpBackward => self.go_jump(true),
            NormalCmd::JumpForward => self.go_jump(false),
            NormalCmd::OlderChange => self.go_change(true),
            NormalCmd::NewerChange => self.go_change(false),
            NormalCmd::IncrementNumber => self.count_on::<B>(true),
            NormalCmd::DecrementNumber => self.count_on::<B>(false),
            NormalCmd::WriteQuit => self.say(HostCall::Save(self.doc)).say(HostCall::Close(true)),
            NormalCmd::QuitNoSave => self.say(HostCall::Close(true)),
        }
    }

    /// A command that waits for its character.
    pub open spec fn await_char(self, cmd: CharArgCmd) -> World {
        self.with_vim(Vim { char_arg_cmd: Some(cmd), ..self.vim })
    }
}

/// `gv` after a selection was left selects the same again: the same kind, from
/// the same first character to the same last one.
pub proof fn selection_comes_back(w: World, anchor: usize, kind: VisualKind)
    requires
        w.vim.mode == (Mode::Visual { kind }),
        w.vim.visual_anchor == Some(anchor),
        anchor <= w.doc.len() < usize::MAX,
        w.cursor() <= w.doc.len(),
    ensures
        ({
            let again = w.exit_visual().restore_visual();
            &&& again.vim.mode == (Mode::Visual { kind })
            &&& again.vim.selection_bounds() == w.vim.selection_bounds()
            &&& again.doc == w.doc
        }),
{
    reveal(Vim::exit_visual);
}

/// Exchanging the ends of a selection twice leaves it as it was.
pub proof fn ends_swap_back(w: World)
    requires
        w.vim.mode is Visual,
    ensures
        w.swap_ends().swap_ends() == w,
        w.swap_ends().vim.selection_bounds() == w.vim.selection_bounds(),
{
}

/// `.` replays exactly what was recorded of the last command that changed the
/// text.
pub proof fn dot_replays_the_last_change(w: World)
    requires
        !w.vim.replaying,
        !w.vim.recording_blocked,
        w.vim.recording_mutated,
        w.vim.recording.len() > 0,
        w.vim.pending_keys.len() == 0,
        w.vim.count is None,
        w.vim.op_count is None,
    ensures
        ({
            let w2 = w.with_vim(w.vim.commit_record()).repeat_change();
            &&& w2.vim.pending_keys == keys_of(w.vim.recording)
            &&& w2.vim.replaying
            &&& w2.doc == w.doc
        }),
{
    reveal(Vim::commit_record);
    reveal(World::repeat_change);
    reveal(Vim::replay);
    reveal_with_fuel(copies, 2);
    assert(copies(keys_of(w.vim.recording), 1) =~= keys_of(w.vim.recording));
    assert(w.vim.pending_keys + copies(keys_of(w.vim.recording), 1) =~= keys_of(w.vim.recording));
}

impl VimState {
    fn repeat_change<B: VimBufferMut, H: VimHost>(&mut self, ctx: &mut Ctx<B, H>)
        ensures
            *final(final(ctx).buf) == *final(old(ctx).buf),
            *final(final(ctx).host) == *final(old(ctx).host),
            hears(*final(ctx).host, final(self)@.told, *old(ctx).host, old(self)@.told),
            final(ctx).world(*final(self)) == old(ctx).world(*old(self)).repeat_change(),
    {
        proof {
            reveal(World::repeat_change);
        }
        let count = self.take_count_or_one();
        if self.last_change.len() == 0 {
            self.bell(ctx);
            return;
        }
        let list = crate::state::copy_steps(&self.last_change);
        self.replay(&list, count);
    }

    fn count_on<B: VimBufferMut, H: VimHost>(&mut self, ctx: &mut Ctx<B, H>, up: bool)
        ensures
            *final(final(ctx).buf) == *final(old(ctx).buf),
            *final(final(ctx).host) == *final(old(ctx).host),
            hears(*final(ctx).host, final(self)@.told, *old(ctx).host, old(self)@.told),
            final(ctx).world(*final(self)) == old(ctx).world(*old(self)).count_on::<B>(up),
    {
        proof {
            reveal(World::count_on);
        }
        let count = self.take_count_or_one();
        let by: i64 = if count as u64 <= i64::MAX as u64 {
            count as i64
        } else {
            i64::MAX
        };
        let delta: i64 = if up {
            by
        } else {
            -by
        };
        if !self.increment_number_at_cursor(ctx, delta) {
            self.fail(ctx, "E18: Unexpected end of file");
        }
    }

    fn restore_visual<B: VimBufferMut, H: VimHost>(&mut self, ctx: &mut Ctx<B, H>)
        ensures
            *final(final(ctx).buf) == *final(old(ctx).buf),
            *final(final(ctx).host) == *final(old(ctx).host),
            hears(*final(ctx).host, final(self)@.told, *old(ctx).host, old(self)@.told),
            final(ctx).world(*final(self)) == old(ctx).world(*old(self)).restore_visual(),
    {
        if let Some((lo, hi, kind)) = self.last_visual {
            let last: usize = if hi >= 1 {
                hi - 1
            } else {
                0
            };
            let len = ctx.buf.len();
            self.set_offset(
                if last <= len {
                    last
                } else {
                    len
                },
            );
            self.visual_anchor = Some(lo);
            self.mode = Mode::Visual { kind };
        }
    }

    pub(crate) fn await_char(&mut self, cmd: CharArgCmd)
        ensures
            final(self)@ == (Vim { char_arg_cmd: Some(cmd), ..old(self)@ }),
    {
        self.char_arg_cmd = Some(cmd);
    }

    pub(crate) fn execute_normal_cmd<B: VimBufferMut, H: VimHost>(
        &mut self,
        ctx: &mut Ctx<B, H>,
        cmd: NormalCmd,
    ) -> (replies: Ghost<Seq<Reply>>)
        ensures
            *final(final(ctx).buf) == *final(old(ctx).buf),
            *final(final(ctx).host) == *final(old(ctx).host),
            hears(*final(ctx).host, final(self)@.told, *old(ctx).host, old(self)@.told),
            final(ctx).world(*final(self)) == old(ctx).world(*old(self)).normal_cmd::<B>(
                old(ctx).env(),
                cmd,
                replies@,
            ),
    {
        proof {
            reveal(World::normal_cmd);
        }
        match cmd {
            NormalCmd::DeleteCharForward
            | NormalCmd::DeleteCharBackward
            | NormalCmd::ToggleChar
            | NormalCmd::PutAfter
            | NormalCmd::PutBefore
            | NormalCmd::Join
            | NormalCmd::JoinLiteral
            | NormalCmd::LinewiseOp(_) => self.edit_command(ctx, cmd),
            NormalCmd::SubstituteChar => self.substitute_chars(ctx),
            NormalCmd::SubstituteLine => self.substitute_line(ctx),
            NormalCmd::ChangeToEnd => self.change_to_end(ctx),
            NormalCmd::DeleteToEnd => self.delete_to_end(ctx),
            NormalCmd::YankLine => self.yank_lines(ctx),
            NormalCmd::Undo => {
                return self.undo_command(ctx, false);
            },
            NormalCmd::Redo => {
                return self.undo_command(ctx, true);
            },
            NormalCmd::ReplaceChar => self.await_char(CharArgCmd::Replace),
            NormalCmd::MarkSet => self.await_char(CharArgCmd::MarkSet),
            NormalCmd::RecordMacro => self.await_char(CharArgCmd::MacroRecord),
            NormalCmd::PlayMacro => self.await_char(CharArgCmd::MacroPlay),
            NormalCmd::JumpMark { linewise } => self.await_char(CharArgCmd::JumpMark { linewise }),
            NormalCmd::ScrollCenter | NormalCmd::ScrollTop | NormalCmd::ScrollBottom => {
                self.scroll_view(ctx, cmd)
            },
            NormalCmd::ScrollLineDown => self.scroll_lines(ctx, true),
            NormalCmd::ScrollLineUp => self.scroll_lines(ctx, false),
            NormalCmd::RestoreVisual => self.restore_visual(ctx),
            NormalCmd::RepeatChange => self.repeat_change(ctx),
            NormalCmd::JumpBackward => self.go_jump(ctx, true),
            NormalCmd::JumpForward => self.go_jump(ctx, false),
            NormalCmd::OlderChange => self.go_change(ctx, true),
            NormalCmd::NewerChange => self.go_change(ctx, false),
            NormalCmd::IncrementNumber => self.count_on(ctx, true),
            NormalCmd::DecrementNumber => self.count_on(ctx, false),
            NormalCmd::WriteQuit => {
                self.tell_save(ctx);
                self.tell_close(ctx, true);
            },
            NormalCmd::QuitNoSave => self.tell_close(ctx, true),
        }
        Ghost(Seq::empty())
    }
}

} // verus!
