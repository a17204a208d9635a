//! The commands of Normal and Visual mode.
use crate::buffer::{next_grapheme_offset, VimBuffer, VimBufferMut};
use crate::doc::{max, min};
use crate::edits::{behind, run_of, run_text};
use crate::host::{hears, HostCall, VimHost};
use crate::mode::{Mode, VisualKind};
use crate::motions::next_cluster;
use crate::operators::apply;
use crate::ops::{line_span, lines_span, span, span_from_visual, OpSpan, Operator};
use crate::shift::plus;
use crate::state::{Ctx, InsertKind, Vim, VimState, World};
use crate::strs::byte_len;
use vstd::prelude::*;

verus! {

impl World {
    /// The counts used up.
    pub open spec fn without_count(self) -> World {
        self.with_vim(self.vim.without_count())
    }

    /// Nothing typed that waits for more.
    pub open spec fn reset_pending(self) -> World {
        self.with_vim(self.vim.reset_pending())
    }

    pub open spec fn end_command(self) -> World {
        self.with_vim(self.vim.end_command())
    }

    /// The undo group closed, unless an insert session goes on in it.
    pub open spec fn close_edit(self) -> World {
        if self.vim.insert_session is None {
            self.end_edit()
        } else {
            self
        }
    }

    /// `count` lines from the cursor's on.
    pub open spec fn counted_lines(self, count: int) -> OpSpan {
        line_span(
            self.doc,
            self.line(),
            min(self.line() + max(count, 1) - 1, self.doc.line_count() - 1),
        )
    }
}

pub(crate) fn counted_lines<B: VimBuffer>(buf: &B, at: usize, count: usize) -> (s: OpSpan)
    ensures
        s == line_span(
            buf.doc(),
            buf.doc().line_of(at as int),
            min(
                buf.doc().line_of(at as int) + max(count as int, 1) - 1,
                buf.doc().line_count() - 1,
            ),
        ),
{
    proof {
        buf.doc_wf();
        buf.doc().lemma_line_of(at as int);
    }
    let line = buf.offset_to_line(at);
    let end = buf.line_count() - 1;
    let more: usize = if count >= 1 {
        count - 1
    } else {
        0
    };
    let last: usize = if more <= end - line {
        line + more
    } else {
        end
    };
    lines_span(buf, line, last)
}

// ---- starting to insert --------------------------------------------------------------------------

impl World {
    /// A line opened below or above the cursor's, indented as that one is.
    #[verifier::opaque]
    pub open spec fn open_line<B: VimBufferMut>(self, below: bool) -> World {
        let w = self.begin_edit();
        let indent = run_of(' ', w.doc.indent(w.line()));
        let text = if below {
            seq!['\n'] + indent
        } else {
            indent.push('\n')
        };
        let at = if below {
            w.doc.line_end(w.line())
        } else {
            w.doc.line_start(w.line())
        };
        w.edit_insert::<B>(at, text).at(
            if below {
                behind(at, text)
            } else {
                behind(at, indent)
            },
        ).say(HostCall::Changed)
    }

    /// Where inserting begins.
    #[verifier::opaque]
    pub open spec fn insert_place<B: VimBufferMut>(self, kind: InsertKind) -> World {
        match kind {
            InsertKind::Insert | InsertKind::Change | InsertKind::Replace => self,
            InsertKind::Append => if self.cursor() >= self.doc.line_end(self.line()) {
                self
            } else {
                match next_cluster(self.doc, self.cursor()) {
                    Some(n) => self.at(n),
                    None => self,
                }
            },
            InsertKind::InsertFirstNonBlank => self.at(self.doc.first_non_blank(self.line())),
            InsertKind::AppendLineEnd => self.at(self.doc.line_end(self.line())),
            InsertKind::InsertAtColumnZero => self.at(self.doc.line_start(self.line())),
            InsertKind::LastInsertExit => match self.vim.marks.last_insert_exit {
                Some(o) => self.at(min(o as int, self.doc.len())),
                None => self,
            },
            InsertKind::OpenLine { below } => self.open_line::<B>(below),
        }
    }

    /// Inserting begun.
    pub open spec fn start_insert<B: VimBufferMut>(self, kind: InsertKind) -> World {
        self.insert_place::<B>(kind).begin_insert(kind)
    }
}

impl VimState {
    fn open_line<B: VimBufferMut, H: VimHost>(&mut self, ctx: &mut Ctx<B, H>, below: bool)
        ensures
            *final(final(ctx).buf) == *final(old(ctx).buf),
            *final(final(ctx).host) == *final(old(ctx).host),
            hears(*final(ctx).host, final(self)@.told, *old(ctx).host, old(self)@.told),
            final(ctx).world(*final(self)) == old(ctx).world(*old(self)).open_line::<B>(below),
            final(ctx).env() == old(ctx).env(),
    {
        proof {
            reveal(World::open_line);
        }
        // open the undo group BEFORE mutating, so the snapshot the host takes
        // can actually undo the inserted line
        self.begin_edit(ctx);
        let line = ctx.buf.offset_to_line(self.cursor.offset);
        let (width, _) = ctx.buf.line_indent(line);
        let indent = run_text(' ', width);
        if below {
            let at = ctx.buf.line_end(line);
            let mut text = String::new();
            text.push('\n');
            text.push_str(indent.as_str());
            proof {
                assert(text@ =~= seq!['\n'] + indent@);
            }
            self.edit_insert(ctx, at, text.as_str());
            self.set_offset(plus(at, byte_len(text.as_str())));
            self.notify_changed(ctx);
        } else {
            let at = ctx.buf.line_start(line);
            let width = byte_len(indent.as_str());
            let mut text = indent;
            text.push('\n');
            self.edit_insert(ctx, at, text.as_str());
            self.set_offset(plus(at, width));
            self.notify_changed(ctx);
        }
    }

    fn insert_place<B: VimBufferMut, H: VimHost>(&mut self, ctx: &mut Ctx<B, H>, kind: InsertKind)
        ensures
            *final(final(ctx).buf) == *final(old(ctx).buf),
            *final(final(ctx).host) == *final(old(ctx).host),
            hears(*final(ctx).host, final(self)@.told, *old(ctx).host, old(self)@.told),
            final(ctx).world(*final(self)) == old(ctx).world(*old(self)).insert_place::<B>(kind),
            final(ctx).env() == old(ctx).env(),
    {
        proof {
            reveal(World::insert_place);
        }
        let at = self.cursor.offset;
        match kind {
            InsertKind::Insert | InsertKind::Change | InsertKind::Replace => {},
            InsertKind::Append => {
                if !ctx.buf.at_line_end(at) {
                    if let Some(next) = next_grapheme_offset(&*ctx.buf, at) {
                        self.set_offset(next);
                    }
                }
            },
            InsertKind::InsertFirstNonBlank => {
                let to = ctx.buf.first_non_blank(ctx.buf.offset_to_line(at));
                self.set_offset(to);
            },
            InsertKind::AppendLineEnd => {
                let to = ctx.buf.line_end(ctx.buf.offset_to_line(at));
                self.set_offset(to);
            },
            InsertKind::InsertAtColumnZero => {
                let to = ctx.buf.line_start(ctx.buf.offset_to_line(at));
                self.set_offset(to);
            },
            InsertKind::LastInsertExit => {
                if let Some(to) = self.marks.insert_exit() {
                    let len = ctx.buf.len();
                    self.set_offset(
                        if to <= len {
                            to
                        } else {
                            len
                        },
                    );
                }
            },
            InsertKind::OpenLine { below } => self.open_line(ctx, below),
        }
    }

    /// `start_insert` places the cursor per `InsertKind` then begins a session.
    pub(crate) fn start_insert<B: VimBufferMut, H: VimHost>(
        &mut self,
        ctx: &mut Ctx<B, H>,
        kind: InsertKind,
    )
        ensures
            *final(final(ctx).buf) == *final(old(ctx).buf),
            *final(final(ctx).host) == *final(old(ctx).host),
            hears(*final(ctx).host, final(self)@.told, *old(ctx).host, old(self)@.told),
            final(ctx).world(*final(self)) == old(ctx).world(*old(self)).start_insert::<B>(kind),
            final(ctx).env() == old(ctx).env(),
    {
        self.insert_place(ctx, kind);
        self.begin_insert(ctx, kind);
    }
}

// ---- operators -----------------------------------------------------------------------------------------

impl World {
    /// The pending operator applied to a span.
    #[verifier::opaque]
    pub open spec fn complete_operator<B: VimBufferMut>(self, s: OpSpan) -> World {
        match self.vim.op {
            Some(op) => {
                let w = self.with_vim(Vim { op: None, op_count: None, ..self.vim }).begin_edit();
                let w = w.apply::<B>(op, s, w.vim.register).close_edit().bump::<B>().reset_pending();
                if w.vim.insert_session is None {
                    w.with_vim(w.vim.commit_record())
                } else {
                    w
                }
            },
            None => self,
        }
    }

    /// An operator applied to the selection, which is dropped unless insert
    /// mode was begun.
    #[verifier::opaque]
    pub open spec fn operate_visual<B: VimBufferMut>(self, op: Operator) -> World {
        let w = self.with_vim(Vim { recording_blocked: true, ..self.vim });
        if w.vim.mode == (Mode::Visual { kind: VisualKind::Block }) {
            w.operate_block::<B>(op)
        } else {
            match w.vim.selected_span(w.doc) {
                Some(s) => {
                    let w = w.begin_edit();
                    let w = w.apply::<B>(op, s, w.vim.register).close_edit().bump::<
                        B,
                    >().reset_pending();
                    if w.vim.mode is Visual {
                        w.finish_visual_op()
                    } else {
                        w
                    }
                },
                None => w.say(HostCall::Bell),
            }
        }
    }
}

impl VimState {
    pub(crate) fn close_edit(&mut self)
        ensures
            final(self)@ == if old(self)@.insert_session is None {
                Vim { open_undo: None, ..old(self)@ }
            } else {
                old(self)@
            },
    {
        // an operator that entered insert mode (cw/ciw/cc) keeps its group
        // open so deletion + typing undo as one step
        if self.insert_session.is_none() {
            self.end_edit();
        }
    }

    fn take_operator(&mut self) -> (op: Option<Operator>)
        ensures
            op == old(self)@.op,
            final(self)@ == (Vim {
                op: None,
                op_count: if op is Some {
                    None
                } else {
                    old(self)@.op_count
                },
                ..old(self)@
            }),
    {
        let op = self.op;
        if op.is_some() {
            self.op = None;
            self.op_count = None;
        }
        op
    }

    /// An operator got its motion/object (from the trie or a doubled key).
    pub(crate) fn complete_operator_with_span<B: VimBufferMut, H: VimHost>(
        &mut self,
        ctx: &mut Ctx<B, H>,
        span: &OpSpan,
    )
        ensures
            *final(final(ctx).buf) == *final(old(ctx).buf),
            *final(final(ctx).host) == *final(old(ctx).host),
            hears(*final(ctx).host, final(self)@.told, *old(ctx).host, old(self)@.told),
            final(ctx).world(*final(self)) == old(ctx).world(*old(self)).complete_operator::<B>(
                *span,
            ),
    {
        proof {
            reveal(World::complete_operator);
        }
        let op = match self.take_operator() {
            Some(op) => op,
            None => {
                return;
            },
        };
        self.begin_edit(ctx);
        let register = self.register;
        apply(self, ctx, op, span, register);
        self.close_edit();
        self.bump(ctx);
        self.reset_pending();
        if self.insert_session.is_none() {
            self.commit_change_record();
        }
    }

    /// Apply an operator to the current visual selection and leave visual mode
    /// (unless the operator opened insert, e.g. `c`).
    pub(crate) fn apply_visual_operator<B: VimBufferMut, H: VimHost>(
        &mut self,
        ctx: &mut Ctx<B, H>,
        op: Operator,
    )
        ensures
            *final(final(ctx).buf) == *final(old(ctx).buf),
            *final(final(ctx).host) == *final(old(ctx).host),
            hears(*final(ctx).host, final(self)@.told, *old(ctx).host, old(self)@.told),
            final(ctx).world(*final(self)) == old(ctx).world(*old(self)).operate_visual::<B>(op),
    {
        proof {
            reveal(World::operate_visual);
        }
        // visual-mode changes are not `.`-repeatable
        self.block_recording();
        if self.mode == (Mode::Visual { kind: VisualKind::Block }) {
            self.apply_block_operator(ctx, op);
            return;
        }
        let span = match span_from_visual(self, &*ctx.buf) {
            Some(span) => span,
            None => {
                self.bell(ctx);
                return;
            },
        };
        self.begin_edit(ctx);
        let register = self.register;
        apply(self, ctx, op, &span, register);
        self.close_edit();
        self.bump(ctx);
        self.reset_pending();
        if self.mode.is_visual() {
            self.finish_visual_op(ctx);
        }
    }
}

} // verus!
