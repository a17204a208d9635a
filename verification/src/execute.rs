//! Executing a command that was typed in full.
use crate::buffer::VimBufferMut;
use crate::chars::{is_white, white};
use crate::doc::{max, min};
use crate::edits::{
    behind, close_line, delete_span, join_lines, repeat_text, repeated, with_newline,
};
use crate::host::{hears, Env, HostCall, VimHost};
use crate::key::{ctrl_stroke, named_stroke, Key, Stroke};
use crate::marks::MarkSet;
use crate::mode::{Mode, VisualKind};
use crate::motions::{landing, Motion};
use crate::normal::Reply;
use crate::objects::TextObject;
use crate::operators::{last_line, last_line_of, replace_chars};
use crate::ops::{
    motion_span, object_span, object_span_at, span_from_motion, span_from_visual, OpSpan, Operator,
};
use crate::registers::{slot_of, Register, RegisterKind, Slot};
use crate::shift::plus;
use crate::state::{macros_of, steps, CharArgCmd, Ctx, RecordedStep, Step, Vim, VimState, World};
use crate::strs::byte_len;
use crate::tables::{CmdKind, NormalCmd, VisualCmd};
use vstd::prelude::*;

verus! {

// ---- Visual mode -----------------------------------------------------------------------------------

/// The kind of selection that a key stands for.
pub open spec fn kind_for(to: char) -> VisualKind {
    if to == 'v' {
        VisualKind::Char
    } else if to == 'V' {
        VisualKind::Line
    } else {
        VisualKind::Block
    }
}

impl World {
    /// `v`, `V` and `<C-v>` in Visual mode: another kind of selection, the
    /// same kind leaves.
    pub open spec fn toggle_kind(self, to: char) -> World {
        match self.vim.mode {
            Mode::Visual { kind } => if kind == kind_for(to) {
                self.exit_visual()
            } else {
                self.with_vim(Vim { mode: Mode::Visual { kind: kind_for(to) }, ..self.vim })
            },
            _ => self,
        }
    }

    /// `o`: the cursor at the other end of the selection.
    pub open spec fn swap_ends(self) -> World {
        match self.vim.selection() {
            Some((anchor, cursor, _)) => self.with_vim(
                Vim { visual_anchor: Some(cursor), ..self.vim.at(anchor as int) },
            ),
            None => self,
        }
    }

    /// A register's text put where the selection was.
    #[verifier::opaque]
    pub open spec fn put_in_place<B: VimBufferMut>(self, slot: Slot, count: int) -> World {
        let text = repeated(slot.text, max(count, 1));
        if slot.kind == RegisterKind::Linewise {
            let w = self.edit_insert::<B>(self.cursor(), with_newline(text));
            w.at(w.doc.first_non_blank(w.doc.line_of(self.cursor())))
        } else {
            let at = min(self.cursor(), self.doc.len());
            let w = self.edit_insert::<B>(at, text);
            w.at(
                match w.doc.prev(behind(at, text)) {
                    Some(p) => p,
                    None => at,
                },
            )
        }
    }

    /// What was kept of a register put where the selection was.
    #[verifier::opaque]
    pub open spec fn put_stashed<B: VimBufferMut>(self, slot: Option<Slot>) -> World {
        match slot {
            Some(slot) => self.without_count().put_in_place::<B>(slot, self.vim.total_count()),
            None => self,
        }
    }

    /// An edit of the selection ends.
    #[verifier::opaque]
    pub open spec fn end_visual_edit<B: VimBufferMut>(self) -> World {
        self.end_edit().bump::<B>().finish_visual_op()
    }

    /// `p` and `P` in Visual mode: the selection replaced by a register.
    #[verifier::opaque]
    pub open spec fn put_over<B: VimBufferMut>(self, env: Env) -> World {
        if self.vim.mode == (Mode::Visual { kind: VisualKind::Block }) {
            self.put_over_block::<B>(env)
        } else {
            match self.vim.selected_span(self.doc) {
                Some(s) => {
                    let slot = self.vim.registers.paste_slot(self.vim.put_register(), env.clip);
                    let w = self.begin_edit();
                    w.delete_span::<B>(s, w.vim.register).put_stashed::<B>(slot).end_visual_edit::<
                        B,
                    >()
                },
                None => self,
            }
        }
    }

    /// `J` and `gJ` in Visual mode: the selected lines joined.
    #[verifier::opaque]
    pub open spec fn join_selected<B: VimBufferMut>(self, literal: bool) -> World {
        match self.vim.selected_span(self.doc) {
            Some(s) => {
                let count = self.vim.total_count();
                let lines = last_line_of(self.doc, s) - self.doc.line_of(s.start as int) + 1;
                self.without_count().begin_edit().at(s.start as int).join_lines::<B>(
                    max(lines, count),
                    literal,
                ).end_visual_edit::<B>()
            },
            None => self,
        }
    }

    /// A command of Visual mode.
    #[verifier::opaque]
    pub open spec fn visual_cmd<B: VimBufferMut>(self, env: Env, cmd: VisualCmd) -> World {
        match cmd {
            VisualCmd::Exit => self.exit_visual(),
            VisualCmd::ToggleKind { to } => self.toggle_kind(to),
            VisualCmd::SwapEnds => self.swap_ends(),
            VisualCmd::PutReplace => self.put_over::<B>(env),
            VisualCmd::Join { literal } => self.join_selected::<B>(literal),
        }
    }
}

impl VimState {
    fn toggle_kind<B: VimBufferMut, H: VimHost>(&mut self, ctx: &mut Ctx<B, H>, to: char)
        ensures
            *final(final(ctx).buf) == *final(old(ctx).buf),
            *final(final(ctx).host) == *final(old(ctx).host),
            hears(*final(ctx).host, final(self)@.told, *old(ctx).host, old(self)@.told),
            final(ctx).world(*final(self)) == old(ctx).world(*old(self)).toggle_kind(to),
    {
        if let Mode::Visual { kind } = self.mode {
            let target = if to == 'v' {
                VisualKind::Char
            } else if to == 'V' {
                VisualKind::Line
            } else {
                VisualKind::Block
            };
            if kind == target {
                self.exit_visual(ctx);
            } else {
                self.mode = Mode::Visual { kind: target };
            }
        }
    }

    fn swap_ends<B: VimBufferMut, H: VimHost>(&mut self, ctx: &mut Ctx<B, H>)
        ensures
            *final(final(ctx).buf) == *final(old(ctx).buf),
            *final(final(ctx).host) == *final(old(ctx).host),
            hears(*final(ctx).host, final(self)@.told, *old(ctx).host, old(self)@.told),
            final(ctx).world(*final(self)) == old(ctx).world(*old(self)).swap_ends(),
    {
        if let Some((anchor, cursor, _)) = self.visual_selection() {
            self.set_offset(anchor);
            self.visual_anchor = Some(cursor);
        }
    }

    fn put_in_place<B: VimBufferMut, H: VimHost>(
        &mut self,
        ctx: &mut Ctx<B, H>,
        text: &str,
        kind: RegisterKind,
        count: usize,
    )
        ensures
            *final(final(ctx).buf) == *final(old(ctx).buf),
            *final(final(ctx).host) == *final(old(ctx).host),
            hears(*final(ctx).host, final(self)@.told, *old(ctx).host, old(self)@.told),
            final(ctx).world(*final(self)) == old(ctx).world(*old(self)).put_in_place::<B>(
                (Slot { text: text@, kind }),
                count as int,
            ),
    {
        proof {
            reveal(World::put_in_place);
        }
        let text = repeat_text(
            text,
            if count >= 1 {
                count
            } else {
                1
            },
        );
        if kind == RegisterKind::Linewise {
            let text = close_line(text);
            let at = self.cursor.offset;
            self.edit_insert(ctx, at, text.as_str());
            let to = ctx.buf.first_non_blank(ctx.buf.offset_to_line(at));
            self.set_offset(to);
        } else {
            let len = ctx.buf.len();
            let at: usize = if self.cursor.offset <= len {
                self.cursor.offset
            } else {
                len
            };
            self.edit_insert(ctx, at, text.as_str());
            // cursor on the last pasted char's START — byte - 1 would sit
            // inside a multi-byte character
            let end = plus(at, byte_len(text.as_str()));
            let to = match ctx.buf.prev_char_offset(end) {
                Some(prev) => prev,
                None => at,
            };
            self.set_offset(to);
        }
    }

    fn put_stashed<B: VimBufferMut, H: VimHost>(
        &mut self,
        ctx: &mut Ctx<B, H>,
        stashed: Option<Register>,
    )
        ensures
            *final(final(ctx).buf) == *final(old(ctx).buf),
            *final(final(ctx).host) == *final(old(ctx).host),
            hears(*final(ctx).host, final(self)@.told, *old(ctx).host, old(self)@.told),
            final(ctx).world(*final(self)) == old(ctx).world(*old(self)).put_stashed::<B>(
                slot_of(stashed),
            ),
    {
        proof {
            reveal(World::put_stashed);
        }
        if let Some(data) = stashed {
            let count = self.take_total_count();
            self.put_in_place(ctx, data.text.as_str(), data.kind, count);
        }
    }

    fn end_visual_edit<B: VimBufferMut, H: VimHost>(&mut self, ctx: &mut Ctx<B, H>)
        ensures
            *final(final(ctx).buf) == *final(old(ctx).buf),
            *final(final(ctx).host) == *final(old(ctx).host),
            hears(*final(ctx).host, final(self)@.told, *old(ctx).host, old(self)@.told),
            final(ctx).world(*final(self)) == old(ctx).world(*old(self)).end_visual_edit::<B>(),
    {
        proof {
            reveal(World::end_visual_edit);
        }
        self.end_edit();
        self.bump(ctx);
        self.finish_visual_op(ctx);
    }

    fn put_over_span<B: VimBufferMut, H: VimHost>(&mut self, ctx: &mut Ctx<B, H>, s: &OpSpan)
        ensures
            *final(final(ctx).buf) == *final(old(ctx).buf),
            *final(final(ctx).host) == *final(old(ctx).host),
            hears(*final(ctx).host, final(self)@.told, *old(ctx).host, old(self)@.told),
            final(ctx).world(*final(self)) == ({
                let w = old(ctx).world(*old(self));
                let slot = w.vim.registers.paste_slot(w.vim.put_register(), old(ctx).env().clip);
                let w = w.begin_edit();
                w.delete_span::<B>(*s, w.vim.register).put_stashed::<B>(slot).end_visual_edit::<B>()
            }),
    {
        // stash the paste content before the deletion rewrites registers
        let stashed = self.registers.get_for_paste(self.put_register(), &*ctx.host);
        self.begin_edit(ctx);
        let register = self.register;
        delete_span(self, ctx, s, register);
        self.put_stashed(ctx, stashed);
        self.end_visual_edit(ctx);
    }

    fn put_over<B: VimBufferMut, H: VimHost>(&mut self, ctx: &mut Ctx<B, H>)
        ensures
            *final(final(ctx).buf) == *final(old(ctx).buf),
            *final(final(ctx).host) == *final(old(ctx).host),
            hears(*final(ctx).host, final(self)@.told, *old(ctx).host, old(self)@.told),
            final(ctx).world(*final(self)) == old(ctx).world(*old(self)).put_over::<B>(
                old(ctx).env(),
            ),
    {
        proof {
            reveal(World::put_over);
        }
        if self.mode == (Mode::Visual { kind: VisualKind::Block }) {
            self.block_put_replace(ctx);
            return;
        }
        if let Some(s) = span_from_visual(self, &*ctx.buf) {
            self.put_over_span(ctx, &s);
        }
    }

    fn join_selected<B: VimBufferMut, H: VimHost>(&mut self, ctx: &mut Ctx<B, H>, literal: bool)
        ensures
            *final(final(ctx).buf) == *final(old(ctx).buf),
            *final(final(ctx).host) == *final(old(ctx).host),
            hears(*final(ctx).host, final(self)@.told, *old(ctx).host, old(self)@.told),
            final(ctx).world(*final(self)) == old(ctx).world(*old(self)).join_selected::<B>(
                literal,
            ),
    {
        proof {
            reveal(World::join_selected);
        }
        let s = match span_from_visual(self, &*ctx.buf) {
            Some(s) => s,
            None => {
                return;
            },
        };
        proof {
            ctx.buf.doc_wf();
            crate::operators::lemma_last_line_of(ctx.buf.doc(), s);
        }
        let lines = last_line(&*ctx.buf, &s) - ctx.buf.offset_to_line(s.start) + 1;
        let count = self.take_total_count();
        self.begin_edit(ctx);
        self.set_offset(s.start);
        join_lines(
            self,
            ctx,
            if lines >= count {
                lines
            } else {
                count
            },
            literal,
        );
        self.end_visual_edit(ctx);
    }

    pub(crate) fn execute_visual_cmd<B: VimBufferMut, H: VimHost>(
        &mut self,
        ctx: &mut Ctx<B, H>,
        cmd: VisualCmd,
    )
        ensures
            *final(final(ctx).buf) == *final(old(ctx).buf),
            *final(final(ctx).host) == *final(old(ctx).host),
            hears(*final(ctx).host, final(self)@.told, *old(ctx).host, old(self)@.told),
            final(ctx).world(*final(self)) == old(ctx).world(*old(self)).visual_cmd::<B>(
                old(ctx).env(),
                cmd,
            ),
    {
        proof {
            reveal(World::visual_cmd);
        }
        match cmd {
            VisualCmd::Exit => self.exit_visual(ctx),
            VisualCmd::ToggleKind { to } => self.toggle_kind(ctx, to),
            VisualCmd::SwapEnds => self.swap_ends(ctx),
            VisualCmd::PutReplace => self.put_over(ctx),
            VisualCmd::Join { literal } => self.join_selected(ctx, literal),
        }
    }
}

// ---- motions and objects -----------------------------------------------------------------------------

impl World {
    /// A command with a character ends.
    pub open spec fn finish_char(self) -> World {
        self.with_vim(Vim { char_arg: None, ..self.vim }).end_command()
    }

    /// The pending operator applied up to where a motion lands.
    #[verifier::opaque]
    pub open spec fn operate_over<B: VimBufferMut>(
        self,
        seen: (usize, usize),
        m: Motion,
        count: int,
    ) -> World {
        let r = landing::<B>(self.vim, self.doc, seen, m, count);
        let w = self.search::<B>(m, count);
        if r.moved {
            w.complete_operator::<B>(motion_span(w.doc, w.cursor(), m, r)).finish_char()
        } else {
            w.say(HostCall::Bell).reset_pending()
        }
    }

    /// A motion typed: the target of an operator that waits for one, else the
    /// cursor moves. One that cannot be made rings the bell.
    #[verifier::opaque]
    pub open spec fn motion_command<B: VimBufferMut>(self, env: Env, m: Motion, count: int) -> World {
        if self.vim.op is Some {
            self.operate_over::<B>(env.seen, m, count)
        } else if self.can_go::<B>(env.seen, m, count) {
            self.go::<B>(env.seen, m, count).finish_char()
        } else {
            self.go::<B>(env.seen, m, count).say(HostCall::Bell).finish_char()
        }
    }

    /// A count was typed.
    pub open spec fn counted(self) -> bool {
        self.vim.count is Some || self.vim.op_count is Some
    }

    /// The motion that a typed one stands for: `cw` on a word acts like `ce`,
    /// and with a count `G` goes to that line and `%` to that part of the
    /// file.
    pub open spec fn meant(self, m: Motion) -> Motion {
        if self.vim.op == Some(Operator::Change) && m == (Motion::WordStart { big: false })
            && self.doc.char_at(self.cursor()) is Some && !white(
            self.doc.char_at(self.cursor())->0,
        ) {
            Motion::WordEnd { big: false }
        } else if self.counted() && m == (Motion::GoToLine { first: false }) {
            Motion::GoToLine { first: true }
        } else if self.counted() && m == Motion::MatchBracket {
            Motion::FilePercent
        } else {
            m
        }
    }

    /// A text object selected.
    #[verifier::opaque]
    pub open spec fn select_object(self, s: OpSpan) -> World {
        let end = min(s.end as int, self.doc.len());
        let w = self.with_vim(Vim { visual_anchor: Some(s.start), ..self.vim });
        w.moved_to(
            if s.start >= s.end {
                s.start as int
            } else {
                match w.doc.prev(end) {
                    Some(p) => p,
                    None => s.start as int,
                }
            },
        )
    }

    /// A text object typed: selected in Visual mode, else the target of an
    /// operator. Only `c` takes an empty one.
    #[verifier::opaque]
    pub open spec fn object_command<B: VimBufferMut>(self, object: TextObject) -> World {
        let s = object_span_at(self.doc, self.cursor(), object);
        if self.vim.mode is Visual {
            match s {
                Some(s) => self.select_object(s),
                None => self.say(HostCall::Bell),
            }
        } else if self.vim.op is Some {
            if s is Some && (s->0.start < s->0.end || self.vim.op == Some(Operator::Change)) {
                self.complete_operator::<B>(s->0)
            } else {
                self.say(HostCall::Bell).reset_pending()
            }
        } else {
            self.say(HostCall::Bell)
        }
    }
}

/// `cw` on a word does what `ce` does.
pub proof fn cw_is_ce<B: VimBufferMut>(w: World, env: Env)
    requires
        w.vim.op == Some(Operator::Change),
        w.doc.char_at(w.cursor()) is Some,
        !white(w.doc.char_at(w.cursor())->0),
    ensures
        w.meant(Motion::WordStart { big: false }) == w.meant(Motion::WordEnd { big: false }),
{
}

impl VimState {
    fn clear_char_arg(&mut self)
        ensures
            final(self)@ == (Vim { char_arg: None, ..old(self)@ }),
    {
        self.char_arg = None;
    }

    fn finish_char(&mut self)
        ensures
            final(self)@ == (Vim { char_arg: None, ..old(self)@ }).end_command(),
            final(self)@.told == old(self)@.told,
    {
        self.clear_char_arg();
        self.end_command();
    }

    fn operate_over<B: VimBufferMut, H: VimHost>(
        &mut self,
        ctx: &mut Ctx<B, H>,
        motion: Motion,
        count: usize,
    )
        ensures
            *final(final(ctx).buf) == *final(old(ctx).buf),
            *final(final(ctx).host) == *final(old(ctx).host),
            hears(*final(ctx).host, final(self)@.told, *old(ctx).host, old(self)@.told),
            final(ctx).world(*final(self)) == old(ctx).world(*old(self)).operate_over::<B>(
                old(ctx).env().seen,
                motion,
                max(count as int, 1),
            ),
    {
        proof {
            reveal(World::operate_over);
        }
        let result = motion.target(self, ctx, count);
        if !result.moved {
            self.bell(ctx);
            self.reset_pending();
            return;
        }
        let s = span_from_motion(self, &*ctx.buf, motion, result);
        self.complete_operator_with_span(ctx, &s);
        self.finish_char();
    }

    fn motion_command<B: VimBufferMut, H: VimHost>(
        &mut self,
        ctx: &mut Ctx<B, H>,
        motion: Motion,
        count: usize,
    )
        ensures
            *final(final(ctx).buf) == *final(old(ctx).buf),
            *final(final(ctx).host) == *final(old(ctx).host),
            hears(*final(ctx).host, final(self)@.told, *old(ctx).host, old(self)@.told),
            final(ctx).world(*final(self)) == old(ctx).world(*old(self)).motion_command::<B>(
                old(ctx).env(),
                motion,
                max(count as int, 1),
            ),
    {
        proof {
            reveal(World::motion_command);
        }
        if self.op.is_some() {
            self.operate_over(ctx, motion, count);
        } else if self.goto_motion(ctx, motion, count) {
            self.finish_char();
        } else {
            self.bell(ctx);
            self.finish_char();
        }
    }

    fn meant<B: VimBufferMut, H: VimHost>(&self, ctx: &Ctx<B, H>, motion: Motion) -> (m: Motion)
        ensures
            m == ctx.world(*self).meant(motion),
    {
        if self.op == Some(Operator::Change) && motion == (Motion::WordStart { big: false }) {
            if let Some(c) = ctx.buf.char_at(self.cursor.offset) {
                if !is_white(c) {
                    return Motion::WordEnd { big: false };
                }
            }
        }
        let counted = self.count.is_some() || self.op_count.is_some();
        if counted && motion == (Motion::GoToLine { first: false }) {
            Motion::GoToLine { first: true }
        } else if counted && motion == Motion::MatchBracket {
            Motion::FilePercent
        } else {
            motion
        }
    }

    fn set_anchor(&mut self, anchor: usize)
        ensures
            final(self)@ == (Vim { visual_anchor: Some(anchor), ..old(self)@ }),
    {
        self.visual_anchor = Some(anchor);
    }

    fn select_object<B: VimBufferMut, H: VimHost>(&mut self, ctx: &mut Ctx<B, H>, s: &OpSpan)
        ensures
            *final(final(ctx).buf) == *final(old(ctx).buf),
            *final(final(ctx).host) == *final(old(ctx).host),
            hears(*final(ctx).host, final(self)@.told, *old(ctx).host, old(self)@.told),
            final(ctx).world(*final(self)) == old(ctx).world(*old(self)).select_object(*s),
    {
        proof {
            reveal(World::select_object);
        }
        self.set_anchor(s.start);
        let len = ctx.buf.len();
        let end: usize = if s.end <= len {
            s.end
        } else {
            len
        };
        let to = if s.start >= s.end {
            s.start
        } else {
            match ctx.buf.prev_char_offset(end) {
                Some(prev) => prev,
                None => s.start,
            }
        };
        self.place(to);
    }

    fn object_command<B: VimBufferMut, H: VimHost>(
        &mut self,
        ctx: &mut Ctx<B, H>,
        object: TextObject,
    )
        ensures
            *final(final(ctx).buf) == *final(old(ctx).buf),
            *final(final(ctx).host) == *final(old(ctx).host),
            hears(*final(ctx).host, final(self)@.told, *old(ctx).host, old(self)@.told),
            final(ctx).world(*final(self)) == old(ctx).world(*old(self)).object_command::<B>(
                object,
            ),
    {
        proof {
            reveal(World::object_command);
        }
        let found = object_span(self, &*ctx.buf, object);
        if self.mode.is_visual() {
            match found {
                Some(s) => self.select_object(ctx, &s),
                None => self.bell(ctx),
            }
        } else if self.op.is_some() {
            if let Some(s) = found {
                if s.start < s.end || self.op == Some(Operator::Change) {
                    self.complete_operator_with_span(ctx, &s);
                    return;
                }
            }
            self.bell(ctx);
            self.reset_pending();
        } else {
            self.bell(ctx);
        }
    }
}

// ---- macros ------------------------------------------------------------------------------------------------

/// The macros with one more.
pub open spec fn with_macro(
    macros: spec_fn(char) -> Option<Seq<Step>>,
    reg: char,
    keys: Seq<Step>,
) -> spec_fn(char) -> Option<Seq<Step>> {
    |c: char|
        if c == reg {
            Some(keys)
        } else {
            macros(c)
        }
}

impl Vim {
    /// `q` while a macro is recorded: it is stored without that `q`, and `@@`
    /// plays it.
    #[verifier::opaque]
    pub open spec fn stop_macro(self) -> Vim {
        match self.macro_capture {
            Some((reg, keys)) => Vim {
                macro_capture: None,
                macros: with_macro(self.macros, reg, crate::record::without_last(keys)),
                last_macro_played: Some(reg),
                ..self
            },
            None => self,
        }
    }

    /// The macro that `@{name}` plays and its register; `@@` plays the last
    /// one again.
    pub open spec fn macro_for(self, name: char) -> Option<(char, Seq<Step>)> {
        let reg = if name == '@' {
            self.last_macro_played
        } else {
            Some(name)
        };
        match reg {
            Some(reg) => match (self.macros)(reg) {
                Some(keys) => Some((reg, keys)),
                None => None,
            },
            None => None,
        }
    }
}

/// A macro that was recorded is the one that is played from its register.
pub proof fn recorded_macro_is_played(v: Vim, reg: char, keys: Seq<Step>, last: Step)
    requires
        v.macro_capture == Some((reg, keys.push(last))),
        reg != '@',
    ensures
        v.stop_macro().macro_for(reg) == Some((reg, keys)),
        v.stop_macro().macro_for('@') == Some((reg, keys)),
{
    reveal(Vim::stop_macro);
    assert(keys.push(last).drop_last() =~= keys);
}

impl VimState {
    fn store_macro(&mut self, reg: char, keys: Vec<RecordedStep>)
        ensures
            final(self)@ == (Vim {
                macros: with_macro(old(self)@.macros, reg, steps(keys@)),
                last_macro_played: Some(reg),
                ..old(self)@
            }),
    {
        let ghost before = self.macros;
        self.macros.insert(reg, keys);
        self.last_macro_played = Some(reg);
        proof {
            reveal(macros_of);
            assert(macros_of(self.macros) =~= with_macro(macros_of(before), reg, steps(keys@)));
        }
    }

    fn stop_macro(&mut self)
        ensures
            final(self)@ == old(self)@.stop_macro(),
            final(self)@.told == old(self)@.told,
    {
        proof {
            reveal(Vim::stop_macro);
        }
        if let Some((reg, keys)) = self.macro_capture.take() {
            let mut keys = keys;
            let ghost all = keys@;
            let _ = keys.pop();
            proof {
                if all.len() > 0 {
                    assert(steps(keys@) =~= steps(all).drop_last());
                } else {
                    assert(steps(keys@) =~= steps(all));
                }
                assert(steps(keys@) == crate::record::without_last(steps(all)));
            }
            self.store_macro(reg, keys);
        }
    }

    fn macro_for(&self, name: char) -> (r: Option<(char, Vec<RecordedStep>)>)
        ensures
            match r {
                Some((reg, keys)) => self@.macro_for(name) == Some((reg, steps(keys@))),
                None => self@.macro_for(name) is None,
            },
    {
        proof {
            reveal(macros_of);
        }
        let reg = if name == '@' {
            self.last_macro_played
        } else {
            Some(name)
        };
        match reg {
            Some(reg) => match self.macros.get(reg) {
                Some(keys) => Some((reg, crate::state::copy_steps(keys))),
                None => None,
            },
            None => None,
        }
    }
}

// ---- commands with a character -----------------------------------------------------------------------------

impl World {
    /// `r{char}`.
    #[verifier::opaque]
    pub open spec fn replace_with<B: VimBufferMut>(self, c: char) -> World {
        self.without_count().begin_edit().replace_chars::<B>(
            c,
            self.vim.total_count(),
        ).end_edit().bump::<B>()
    }

    /// `@{char}`; `@:` runs the last Ex command again.
    #[verifier::opaque]
    pub open spec fn play_macro<B: VimBufferMut>(self, c: char) -> World {
        if c == ':' {
            match self.vim.last_ex {
                Some(line) => self.without_count().run_ex::<B>(line),
                None => self.say(HostCall::Bell),
            }
        } else {
            match self.vim.macro_for(c) {
                Some((reg, keys)) => {
                    let v = Vim { last_macro_played: Some(reg), ..self.vim.without_count() };
                    self.with_vim(v.replay(keys, max(self.vim.total_count(), 1)))
                },
                None => self.say(HostCall::Bell),
            }
        }
    }

    /// `'{char}` and `` `{char} ``.
    #[verifier::opaque]
    pub open spec fn jump_to_mark(self, c: char, linewise: bool) -> World {
        match self.vim.marks.resolved(c) {
            Some(o) => {
                let at = min(o as int, self.doc.len());
                let line = self.doc.line_of(at);
                let to = if linewise {
                    self.doc.first_non_blank(line)
                } else {
                    at
                };
                let w = self.moved_to(to).say(HostCall::Scroll(line));
                w.with_vim(w.vim.record_jump(self.vim.cursor.offset, to as usize))
            },
            None => self.say(HostCall::Bell),
        }
    }

    /// A command that waited gets its character.
    #[verifier::opaque]
    pub open spec fn take_char<B: VimBufferMut>(self, env: Env, cmd: CharArgCmd, c: char) -> World {
        match cmd {
            CharArgCmd::Find { forward, till } => {
                let w = self.with_vim(Vim { last_find: Some((c, forward, till)), ..self.vim });
                w.without_count().motion_command::<B>(
                    env,
                    Motion::FindChar { forward, till },
                    max(w.vim.total_count(), 1),
                )
            },
            CharArgCmd::JumpMark { linewise } => if self.vim.op is Some {
                self.without_count().motion_command::<B>(
                    env,
                    Motion::MarkJump { linewise },
                    max(self.vim.total_count(), 1),
                )
            } else {
                self.jump_to_mark(c, linewise).finish_char()
            },
            CharArgCmd::Replace => self.replace_with::<B>(c).finish_char(),
            CharArgCmd::MarkSet => self.with_vim(
                Vim { marks: self.vim.marks.with_mark(c, self.vim.cursor.offset), ..self.vim },
            ).finish_char(),
            CharArgCmd::MacroRecord => self.with_vim(
                Vim { macro_capture: Some((c, Seq::empty())), ..self.vim },
            ).finish_char(),
            CharArgCmd::MacroPlay => self.play_macro::<B>(c).finish_char(),
        }
    }

    /// The key behind a command that waits for a character.
    #[verifier::opaque]
    pub open spec fn complete_char<B: VimBufferMut>(self, env: Env, key: Stroke) -> World {
        match self.vim.char_arg_cmd {
            Some(cmd) => {
                let v = Vim { char_arg_cmd: None, ..self.vim };
                if gives_up(key) {
                    self.with_vim(v.reset_pending())
                } else {
                    match key.printable() {
                        Some(c) => self.with_vim(Vim { char_arg: Some(c), ..v }).take_char::<B>(
                            env,
                            cmd,
                            c,
                        ),
                        None => self.with_vim(v.reset_pending()).say(HostCall::Bell),
                    }
                }
            },
            None => self,
        }
    }
}

/// `<Esc>` and `<C-[>`.
pub open spec fn gives_up(key: Stroke) -> bool {
    key == named_stroke("escape"@) || key == ctrl_stroke('[')
}

pub(crate) fn is_give_up(key: &Key) -> (b: bool)
    ensures
        b == gives_up(key@),
{
    key.same(&Key::escape()) || key.same(&Key::ctrl_char('['))
}

impl VimState {
    fn replace_with<B: VimBufferMut, H: VimHost>(&mut self, ctx: &mut Ctx<B, H>, c: char)
        ensures
            *final(final(ctx).buf) == *final(old(ctx).buf),
            *final(final(ctx).host) == *final(old(ctx).host),
            hears(*final(ctx).host, final(self)@.told, *old(ctx).host, old(self)@.told),
            final(ctx).world(*final(self)) == old(ctx).world(*old(self)).replace_with::<B>(c),
    {
        proof {
            reveal(World::replace_with);
        }
        let count = self.take_total_count();
        self.begin_edit(ctx);
        replace_chars(self, ctx, c, count);
        self.end_edit();
        self.bump(ctx);
    }

    fn note_macro(&mut self, reg: char)
        ensures
            final(self)@ == (Vim { last_macro_played: Some(reg), ..old(self)@ }),
    {
        self.last_macro_played = Some(reg);
    }

    fn play_macro<B: VimBufferMut, H: VimHost>(&mut self, ctx: &mut Ctx<B, H>, c: char)
        ensures
            *final(final(ctx).buf) == *final(old(ctx).buf),
            *final(final(ctx).host) == *final(old(ctx).host),
            hears(*final(ctx).host, final(self)@.told, *old(ctx).host, old(self)@.told),
            final(ctx).world(*final(self)) == old(ctx).world(*old(self)).play_macro::<B>(c),
    {
        proof {
            reveal(World::play_macro);
        }
        if c == ':' {
            let line = match &self.last_ex {
                Some(line) => line.clone(),
                None => {
                    self.bell(ctx);
                    return;
                },
            };
            let _ = self.take_total_count();
            self.run_ex(ctx, line.as_str());
            return;
        }
        match self.macro_for(c) {
            Some((reg, keys)) => {
                let count = self.take_count_or_one();
                // remember the RESOLVED register: for `@@` the pressed key is
                // '@' itself, which is not a stored macro
                self.note_macro(reg);
                self.replay(&keys, count);
            },
            None => self.bell(ctx),
        }
    }

    fn jump_to_mark<B: VimBufferMut, H: VimHost>(
        &mut self,
        ctx: &mut Ctx<B, H>,
        c: char,
        linewise: bool,
    )
        ensures
            *final(final(ctx).buf) == *final(old(ctx).buf),
            *final(final(ctx).host) == *final(old(ctx).host),
            hears(*final(ctx).host, final(self)@.told, *old(ctx).host, old(self)@.told),
            final(ctx).world(*final(self)) == old(ctx).world(*old(self)).jump_to_mark(c, linewise),
    {
        proof {
            reveal(World::jump_to_mark);
        }
        match self.marks.resolve(c) {
            Some(offset) => {
                let origin = self.cursor.offset;
                let len = ctx.buf.len();
                let at: usize = if offset <= len {
                    offset
                } else {
                    len
                };
                let line = ctx.buf.offset_to_line(at);
                let to = if linewise {
                    ctx.buf.first_non_blank(line)
                } else {
                    at
                };
                self.place(to);
                self.scroll_to(ctx, line);
                self.record_jump(origin, to);
            },
            None => self.bell(ctx),
        }
    }

    fn note_find(&mut self, find: (char, bool, bool))
        ensures
            final(self)@ == (Vim { last_find: Some(find), ..old(self)@ }),
    {
        self.last_find = Some(find);
    }

    fn set_mark(&mut self, c: char)
        ensures
            final(self)@ == (Vim {
                marks: old(self)@.marks.with_mark(c, old(self)@.cursor.offset),
                ..old(self)@
            }),
    {
        let at = self.cursor.offset;
        self.marks.set(c, at);
    }

    fn start_macro(&mut self, c: char)
        ensures
            final(self)@ == (Vim { macro_capture: Some((c, Seq::empty())), ..old(self)@ }),
    {
        let keys: Vec<RecordedStep> = Vec::new();
        proof {
            assert(steps(keys@) =~= Seq::empty());
        }
        self.macro_capture = Some((c, keys));
    }

    fn take_char<B: VimBufferMut, H: VimHost>(
        &mut self,
        ctx: &mut Ctx<B, H>,
        cmd: CharArgCmd,
        c: char,
    )
        ensures
            *final(final(ctx).buf) == *final(old(ctx).buf),
            *final(final(ctx).host) == *final(old(ctx).host),
            hears(*final(ctx).host, final(self)@.told, *old(ctx).host, old(self)@.told),
            final(ctx).world(*final(self)) == old(ctx).world(*old(self)).take_char::<B>(
                old(ctx).env(),
                cmd,
                c,
            ),
    {
        proof {
            reveal(World::take_char);
        }
        match cmd {
            CharArgCmd::Find { forward, till } => {
                self.note_find((c, forward, till));
                let count = self.take_total_count();
                self.motion_command(ctx, Motion::FindChar { forward, till }, count);
            },
            CharArgCmd::JumpMark { linewise } => {
                if self.op.is_some() {
                    let count = self.take_total_count();
                    self.motion_command(ctx, Motion::MarkJump { linewise }, count);
                } else {
                    self.jump_to_mark(ctx, c, linewise);
                    self.finish_char();
                }
            },
            CharArgCmd::Replace => {
                self.replace_with(ctx, c);
                self.finish_char();
            },
            CharArgCmd::MarkSet => {
                self.set_mark(c);
                self.finish_char();
            },
            CharArgCmd::MacroRecord => {
                // the stop is handled in execute_command
                self.start_macro(c);
                self.finish_char();
            },
            CharArgCmd::MacroPlay => {
                self.play_macro(ctx, c);
                self.finish_char();
            },
        }
    }

    fn take_char_cmd(&mut self) -> (cmd: Option<CharArgCmd>)
        ensures
            cmd == old(self)@.char_arg_cmd,
            final(self)@ == (Vim { char_arg_cmd: None, ..old(self)@ }),
    {
        self.char_arg_cmd.take()
    }

    fn set_char_arg(&mut self, c: char)
        ensures
            final(self)@ == (Vim { char_arg: Some(c), ..old(self)@ }),
    {
        self.char_arg = Some(c);
    }

    pub(crate) fn complete_char_arg<B: VimBufferMut, H: VimHost>(
        &mut self,
        ctx: &mut Ctx<B, H>,
        key: &Key,
    )
        ensures
            *final(final(ctx).buf) == *final(old(ctx).buf),
            *final(final(ctx).host) == *final(old(ctx).host),
            hears(*final(ctx).host, final(self)@.told, *old(ctx).host, old(self)@.told),
            final(ctx).world(*final(self)) == old(ctx).world(*old(self)).complete_char::<B>(
                old(ctx).env(),
                key@,
            ),
    {
        proof {
            reveal(World::complete_char);
        }
        let cmd = match self.take_char_cmd() {
            Some(cmd) => cmd,
            None => {
                return;
            },
        };
        if is_give_up(key) {
            self.reset_pending();
            return;
        }
        match key.printable_char() {
            Some(c) => {
                self.set_char_arg(c);
                self.take_char(ctx, cmd, c);
            },
            None => {
                self.reset_pending();
                self.bell(ctx);
            },
        }
    }
}

// ---- all commands ------------------------------------------------------------------------------------------

/// What a command that takes a character waits for.
pub open spec fn char_cmd(kind: CmdKind) -> CharArgCmd {
    match kind {
        CmdKind::Motion(Motion::FindChar { forward, till }) => CharArgCmd::Find { forward, till },
        CmdKind::Motion(Motion::MarkJump { linewise })
        | CmdKind::Normal(NormalCmd::JumpMark { linewise }) => CharArgCmd::JumpMark { linewise },
        CmdKind::Normal(NormalCmd::ReplaceChar) => CharArgCmd::Replace,
        CmdKind::Normal(NormalCmd::MarkSet) => CharArgCmd::MarkSet,
        CmdKind::Normal(NormalCmd::RecordMacro) => CharArgCmd::MacroRecord,
        _ => CharArgCmd::MacroPlay,
    }
}

fn char_cmd_of(kind: CmdKind) -> (c: CharArgCmd)
    ensures
        c == char_cmd(kind),
{
    match kind {
        CmdKind::Motion(Motion::FindChar { forward, till }) => CharArgCmd::Find { forward, till },
        CmdKind::Motion(Motion::MarkJump { linewise })
        | CmdKind::Normal(NormalCmd::JumpMark { linewise }) => CharArgCmd::JumpMark { linewise },
        CmdKind::Normal(NormalCmd::ReplaceChar) => CharArgCmd::Replace,
        CmdKind::Normal(NormalCmd::MarkSet) => CharArgCmd::MarkSet,
        CmdKind::Normal(NormalCmd::RecordMacro) => CharArgCmd::MacroRecord,
        _ => CharArgCmd::MacroPlay,
    }
}

impl World {
    /// An operator typed: it waits for its target, or applies to the
    /// selection.
    pub open spec fn operator_command<B: VimBufferMut>(self, op: Operator) -> World {
        if self.vim.mode is Visual {
            self.operate_visual::<B>(op)
        } else {
            self.with_vim(Vim { op: Some(op), op_count: None, ..self.vim })
        }
    }

    /// A command.
    #[verifier::opaque]
    pub open spec fn command<B: VimBufferMut>(
        self,
        env: Env,
        kind: CmdKind,
        replies: Seq<Reply>,
    ) -> World {
        if kind == CmdKind::Normal(NormalCmd::RecordMacro) && self.vim.macro_capture is Some {
            self.with_vim(self.vim.stop_macro())
        } else if kind.wants_char() {
            self.await_char(char_cmd(kind))
        } else {
            match kind {
                CmdKind::Motion(m) => self.without_count().motion_command::<B>(
                    env,
                    self.meant(m),
                    max(self.vim.total_count(), 1),
                ),
                CmdKind::Object(object) => self.object_command::<B>(object),
                CmdKind::Operator(op) => self.operator_command::<B>(op),
                CmdKind::EnterInsert(insert) => self.start_insert::<B>(insert).end_command(),
                CmdKind::EnterVisual(kind) => self.with_vim(
                    self.vim.enter_visual(kind),
                ).end_command(),
                CmdKind::Normal(cmd) => self.normal_cmd::<B>(env, cmd, replies).end_command(),
                CmdKind::Visual(cmd) => self.visual_cmd::<B>(env, cmd).end_command(),
            }
        }
    }
}

impl VimState {
    fn operator_command<B: VimBufferMut, H: VimHost>(&mut self, ctx: &mut Ctx<B, H>, op: Operator)
        ensures
            *final(final(ctx).buf) == *final(old(ctx).buf),
            *final(final(ctx).host) == *final(old(ctx).host),
            hears(*final(ctx).host, final(self)@.told, *old(ctx).host, old(self)@.told),
            final(ctx).world(*final(self)) == old(ctx).world(*old(self)).operator_command::<B>(op),
    {
        if self.mode.is_visual() {
            self.apply_visual_operator(ctx, op);
        } else {
            self.op = Some(op);
            self.op_count = None;
        }
    }

    fn typed_motion<B: VimBufferMut, H: VimHost>(&mut self, ctx: &mut Ctx<B, H>, m: Motion)
        ensures
            *final(final(ctx).buf) == *final(old(ctx).buf),
            *final(final(ctx).host) == *final(old(ctx).host),
            hears(*final(ctx).host, final(self)@.told, *old(ctx).host, old(self)@.told),
            final(ctx).world(*final(self)) == ({
                let w = old(ctx).world(*old(self));
                w.without_count().motion_command::<B>(
                    old(ctx).env(),
                    w.meant(m),
                    max(w.vim.total_count(), 1),
                )
            }),
    {
        let meant = self.meant(&*ctx, m);
        let count = self.take_total_count();
        self.motion_command(ctx, meant, count);
    }

    /// Execute a resolved command. `count`/`register` come from pending state.
    pub(crate) fn execute_command<B: VimBufferMut, H: VimHost>(
        &mut self,
        ctx: &mut Ctx<B, H>,
        kind: CmdKind,
    ) -> (replies: Ghost<Seq<Reply>>)
        ensures
            *final(final(ctx).buf) == *final(old(ctx).buf),
            *final(final(ctx).host) == *final(old(ctx).host),
            hears(*final(ctx).host, final(self)@.told, *old(ctx).host, old(self)@.told),
            final(ctx).world(*final(self)) == old(ctx).world(*old(self)).command::<B>(
                old(ctx).env(),
                kind,
                replies@,
            ),
    {
        proof {
            reveal(World::command);
        }
        // `q` while recording stops immediately (vim semantics) — it must not
        // wait for a char argument, or the NEXT key would be eaten as the
        // "stop key" and the real trailing `q` would stay in the macro
        if kind == CmdKind::Normal(NormalCmd::RecordMacro) && self.macro_capture.is_some() {
            self.stop_macro();
            return Ghost(Seq::empty());
        }
        // char-argument commands wait for their argument first
        if kind.takes_char() {
            self.await_char(char_cmd_of(kind));
            return Ghost(Seq::empty());
        }
        match kind {
            CmdKind::Motion(m) => self.typed_motion(ctx, m),
            CmdKind::Object(object) => self.object_command(ctx, object),
            CmdKind::Operator(op) => self.operator_command(ctx, op),
            CmdKind::EnterInsert(insert) => {
                self.start_insert(ctx, insert);
                self.end_command();
            },
            CmdKind::EnterVisual(kind) => {
                self.enter_visual(kind);
                self.end_command();
            },
            CmdKind::Normal(cmd) => {
                let replies = self.execute_normal_cmd(ctx, cmd);
                self.end_command();
                return replies;
            },
            CmdKind::Visual(cmd) => {
                self.execute_visual_cmd(ctx, cmd);
                self.end_command();
            },
        }
        Ghost(Seq::empty())
    }
}

} // verus!
