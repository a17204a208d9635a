//! The engine's own bookkeeping: undo groups, the three buffer edits that keep
//! marks in sync, recording for `.` and macros, jumplist and changelist.
use crate::buffer::{replaced, VimBufferMut};
use crate::cells::cells;
use crate::charmap::CharMap;
use crate::cmdline::{no_prompt, Cmdline};
use crate::doc::{min, Doc};
use crate::host::{hears, lemma_one_call, HostCall, ScrollAnchor, VimHost};
use crate::key::Stroke;
use crate::keymap::{no_maps, Keymaps};
use crate::marks::{no_marks, Marks};
use crate::mode::{Mode, VisualKind};
use crate::options::{default_options, Options};
use crate::registers::{empty_registers, Registers};
use crate::search::{no_search, SearchState};
use crate::shift::{plus, Shift};
use crate::state::{macros_of, Ctx, Cursor, Step, Vim, VimState, World};
use crate::strs::byte_len;
use crate::tables::CommandTables;
use std::ops::Range;
use vstd::prelude::*;

verus! {

/// A fresh engine.
pub open spec fn new_vim() -> Vim {
    Vim {
        mode: Mode::Normal,
        cursor: Cursor { offset: 0, desired_col: None },
        visual_anchor: None,
        last_visual: None,
        count: None,
        register: None,
        register_pending: false,
        op: None,
        op_count: None,
        cmd_seq: Seq::empty(),
        char_arg_cmd: None,
        char_arg: None,
        last_find: None,
        pending_keys: Seq::empty(),
        map_depth: 0,
        last_change: Seq::empty(),
        recording: Seq::empty(),
        recording_mutated: false,
        recording_blocked: false,
        replaying: false,
        replay_texts: Seq::empty(),
        recording_suppressed: false,
        macros: |c: char| None,
        macro_capture: None,
        last_macro_played: None,
        no_remap_left: 0,
        expanding_mapping: false,
        changes: Seq::empty(),
        change_pos: 0,
        format_trigger: None,
        cmdline_visual: None,
        lenient_actions: false,
        hlsearch_live_update: true,
        block_insert: None,
        jumps: Seq::empty(),
        jump_pos: 0,
        insert_session: None,
        insert_register_pending: false,
        overwritten: Seq::empty(),
        options: default_options(),
        registers: empty_registers(),
        marks: no_marks(),
        search: no_search(),
        cmdline: no_prompt(),
        last_ex: None,
        keymaps: no_maps(),
        undo_seq: 0,
        open_undo: None,
        edit_generation: 0,
        pending_unknown_char: None,
        told: Seq::empty(),
    }
}

impl VimState {
    pub fn new() -> (v: Self)
        ensures
            v@ == new_vim(),
    {
        let v = VimState {
            mode: Mode::Normal,
            cursor: Cursor { offset: 0, desired_col: None },
            visual_anchor: None,
            last_visual: None,
            count: None,
            register: None,
            register_pending: false,
            op: None,
            op_count: None,
            cmd_seq: Vec::new(),
            char_arg_cmd: None,
            char_arg: None,
            last_find: None,
            pending_keys: Vec::new(),
            map_depth: 0,
            last_change: Vec::new(),
            recording: Vec::new(),
            recording_mutated: false,
            recording_blocked: false,
            replaying: false,
            replay_texts: Vec::new(),
            recording_suppressed: false,
            macros: CharMap::new(),
            macro_capture: None,
            last_macro_played: None,
            no_remap_left: 0,
            expanding_mapping: false,
            changes: Vec::new(),
            change_pos: 0,
            format_trigger: None,
            cmdline_visual: None,
            lenient_actions: false,
            hlsearch_live_update: true,
            block_insert: None,
            jumps: Vec::new(),
            jump_pos: 0,
            insert_session: None,
            insert_register_pending: false,
            overwritten: Vec::new(),
            options: Options::default(),
            registers: Registers::default(),
            marks: Marks::default(),
            search: SearchState::default(),
            cmdline: Cmdline::default(),
            last_ex: None,
            keymaps: Keymaps::default(),
            tables: CommandTables::build(),
            undo_seq: 0,
            open_undo: None,
            edit_generation: 0,
            pending_unknown_char: None,
            told: Ghost(Seq::empty()),
        };
        proof {
            reveal(macros_of);
            assert(v@.cmd_seq =~= Seq::<Stroke>::empty());
            assert(v@.pending_keys =~= Seq::<Stroke>::empty());
            assert(v@.last_change =~= Seq::<Step>::empty());
            assert(v@.recording =~= Seq::<Step>::empty());
            assert(v@.replay_texts =~= Seq::<Seq<char>>::empty());
            assert(v@.changes =~= Seq::<usize>::empty());
            assert(v@.jumps =~= Seq::<usize>::empty());
            assert(v@.overwritten =~= Seq::<Option<char>>::empty());
            assert(v@.macros =~= new_vim().macros);
        }
        v
    }
}

impl Default for VimState {
    fn default() -> (v: Self)
        ensures
            v@ == new_vim(),
    {
        VimState::new()
    }
}

// ---- telling the host -----------------------------------------------------------------

impl VimState {
    pub(crate) fn bell<B: VimBufferMut, H: VimHost>(&mut self, ctx: &mut Ctx<B, H>)
        ensures
            *final(final(ctx).buf) == *final(old(ctx).buf),
            *final(final(ctx).host) == *final(old(ctx).host),
            hears(*final(ctx).host, final(self)@.told, *old(ctx).host, old(self)@.told),
            final(ctx).world(*final(self)) == old(ctx).world(*old(self)).say(HostCall::Bell),
            final(ctx).env() == old(ctx).env(),
    {
        ctx.host.bell();
        proof {
            self.told@ = self.told@.push(HostCall::Bell);
            lemma_one_call(*ctx.host, *old(ctx).host, old(self)@.told, HostCall::Bell);
        }
    }

    pub(crate) fn notify_changed<B: VimBufferMut, H: VimHost>(&mut self, ctx: &mut Ctx<B, H>)
        ensures
            *final(final(ctx).buf) == *final(old(ctx).buf),
            *final(final(ctx).host) == *final(old(ctx).host),
            hears(*final(ctx).host, final(self)@.told, *old(ctx).host, old(self)@.told),
            final(ctx).world(*final(self)) == old(ctx).world(*old(self)).say(HostCall::Changed),
            final(ctx).env() == old(ctx).env(),
    {
        ctx.host.changed();
        proof {
            self.told@ = self.told@.push(HostCall::Changed);
            lemma_one_call(*ctx.host, *old(ctx).host, old(self)@.told, HostCall::Changed);
        }
    }

    pub(crate) fn status<B: VimBufferMut, H: VimHost>(&mut self, ctx: &mut Ctx<B, H>, message: &str)
        ensures
            *final(final(ctx).buf) == *final(old(ctx).buf),
            *final(final(ctx).host) == *final(old(ctx).host),
            hears(*final(ctx).host, final(self)@.told, *old(ctx).host, old(self)@.told),
            final(ctx).world(*final(self)) == old(ctx).world(*old(self)).say(
                HostCall::Status(message@),
            ),
            final(ctx).env() == old(ctx).env(),
    {
        ctx.host.status_message(message);
        proof {
            self.told@ = self.told@.push(HostCall::Status(message@));
            lemma_one_call(*ctx.host, *old(ctx).host, old(self)@.told, HostCall::Status(message@));
        }
    }

    pub(crate) fn scroll_to<B: VimBufferMut, H: VimHost>(&mut self, ctx: &mut Ctx<B, H>, line: usize)
        ensures
            *final(final(ctx).buf) == *final(old(ctx).buf),
            *final(final(ctx).host) == *final(old(ctx).host),
            hears(*final(ctx).host, final(self)@.told, *old(ctx).host, old(self)@.told),
            final(ctx).world(*final(self)) == old(ctx).world(*old(self)).say(
                HostCall::Scroll(line as int),
            ),
            final(ctx).env().clip == old(ctx).env().clip,
    {
        ctx.host.scroll_to_line(line);
        proof {
            self.told@ = self.told@.push(HostCall::Scroll(line as int));
            lemma_one_call(*ctx.host, *old(ctx).host, old(self)@.told, HostCall::Scroll(line as int));
        }
    }

    pub(crate) fn scroll_anchored<B: VimBufferMut, H: VimHost>(
        &mut self,
        ctx: &mut Ctx<B, H>,
        line: usize,
        anchor: ScrollAnchor,
    )
        ensures
            *final(final(ctx).buf) == *final(old(ctx).buf),
            *final(final(ctx).host) == *final(old(ctx).host),
            hears(*final(ctx).host, final(self)@.told, *old(ctx).host, old(self)@.told),
            final(ctx).world(*final(self)) == old(ctx).world(*old(self)).say(
                HostCall::ScrollAnchored(line as int, anchor),
            ),
            final(ctx).env().clip == old(ctx).env().clip,
    {
        ctx.host.scroll_to_line_anchored(line, anchor);
        proof {
            self.told@ = self.told@.push(HostCall::ScrollAnchored(line as int, anchor));
            lemma_one_call(*ctx.host, *old(ctx).host, old(self)@.told, HostCall::ScrollAnchored(line as int, anchor));
        }
    }

    pub(crate) fn tell_save<B: VimBufferMut, H: VimHost>(&mut self, ctx: &mut Ctx<B, H>)
        ensures
            *final(final(ctx).buf) == *final(old(ctx).buf),
            *final(final(ctx).host) == *final(old(ctx).host),
            hears(*final(ctx).host, final(self)@.told, *old(ctx).host, old(self)@.told),
            final(ctx).world(*final(self)) == old(ctx).world(*old(self)).say(
                HostCall::Save(old(ctx).buf.doc()),
            ),
    {
        ctx.host.save(&*ctx.buf);
        proof {
            let call = HostCall::Save(ctx.buf.doc());
            self.told@ = self.told@.push(call);
            lemma_one_call(*ctx.host, *old(ctx).host, old(self)@.told, call);
        }
    }

    pub(crate) fn tell_close<B: VimBufferMut, H: VimHost>(&mut self, ctx: &mut Ctx<B, H>, force: bool)
        ensures
            *final(final(ctx).buf) == *final(old(ctx).buf),
            *final(final(ctx).host) == *final(old(ctx).host),
            hears(*final(ctx).host, final(self)@.told, *old(ctx).host, old(self)@.told),
            final(ctx).world(*final(self)) == old(ctx).world(*old(self)).say(
                HostCall::Close(force),
            ),
    {
        ctx.host.request_close_hinted(force);
        proof {
            self.told@ = self.told@.push(HostCall::Close(force));
            lemma_one_call(*ctx.host, *old(ctx).host, old(self)@.told, HostCall::Close(force));
        }
    }

    pub(crate) fn tell_action<B: VimBufferMut, H: VimHost>(
        &mut self,
        ctx: &mut Ctx<B, H>,
        id: &str,
        strict: bool,
    )
        ensures
            *final(final(ctx).buf) == *final(old(ctx).buf),
            *final(final(ctx).host) == *final(old(ctx).host),
            hears(*final(ctx).host, final(self)@.told, *old(ctx).host, old(self)@.told),
            final(ctx).world(*final(self)) == old(ctx).world(*old(self)).say(
                HostCall::Action(id@, strict),
            ),
    {
        ctx.host.dispatch_host_action_hinted(id, strict);
        proof {
            self.told@ = self.told@.push(HostCall::Action(id@, strict));
            lemma_one_call(*ctx.host, *old(ctx).host, old(self)@.told, HostCall::Action(id@, strict));
        }
    }
}

impl World {
    /// A command that cannot be done: the reason told, and the bell.
    #[verifier::opaque]
    pub open spec fn fail(self, reason: Seq<char>) -> World {
        self.say(HostCall::Status(reason)).say(HostCall::Bell)
    }
}

impl VimState {
    pub(crate) fn fail<B: VimBufferMut, H: VimHost>(&mut self, ctx: &mut Ctx<B, H>, reason: &str)
        ensures
            *final(final(ctx).buf) == *final(old(ctx).buf),
            *final(final(ctx).host) == *final(old(ctx).host),
            hears(*final(ctx).host, final(self)@.told, *old(ctx).host, old(self)@.told),
            final(ctx).world(*final(self)) == old(ctx).world(*old(self)).fail(reason@),
            final(ctx).env() == old(ctx).env(),
    {
        proof {
            reveal(World::fail);
        }
        self.status(ctx, reason);
        self.bell(ctx);
    }
}

// ---- undo grouping ----------------------------------------------------------------------

/// The number behind `n`; the largest number stays.
pub open spec fn next_number(n: u64) -> u64 {
    if n < u64::MAX {
        (n + 1) as u64
    } else {
        n
    }
}

pub(crate) fn count_up(n: u64) -> (r: u64)
    ensures
        r == next_number(n),
{
    if n < u64::MAX {
        n + 1
    } else {
        n
    }
}

impl Vim {
    /// With an undo group open: the one that is open already, else a new one
    /// that the host is told of.
    pub open spec fn with_group(self, d: Doc) -> Vim {
        if self.open_undo is Some {
            self
        } else {
            let id = next_number(self.undo_seq);
            Vim { undo_seq: id, open_undo: Some(id), ..self }.say(
                HostCall::BeginGroup(id, self.cursor.offset, d),
            )
        }
    }
}

impl World {
    /// Ready to edit: an undo group is open, and the recording counts as a
    /// change unless it is being replayed.
    #[verifier::opaque]
    pub open spec fn begin_edit(self) -> World {
        World {
            vim: Vim {
                recording_mutated: self.vim.recording_mutated || !self.vim.replaying,
                ..self.vim
            }.with_group(self.doc),
            ..self
        }
    }

    /// Any open undo group closed.
    pub open spec fn end_edit(self) -> World {
        World { vim: Vim { open_undo: None, ..self.vim }, ..self }
    }
}

impl VimState {
    /// Opens an undo group unless one is open.
    pub(crate) fn open_group<B: VimBufferMut, H: VimHost>(&mut self, ctx: &mut Ctx<B, H>) -> (id: u64)
        ensures
            *final(final(ctx).buf) == *final(old(ctx).buf),
            *final(final(ctx).host) == *final(old(ctx).host),
            hears(*final(ctx).host, final(self)@.told, *old(ctx).host, old(self)@.told),
            final(ctx).world(*final(self)) == (World {
                vim: old(self)@.with_group(old(ctx).buf.doc()),
                ..old(ctx).world(*old(self))
            }),
            final(self)@.open_undo == Some(id),
            final(ctx).env() == old(ctx).env(),
    {
        match self.open_undo {
            Some(id) => id,
            None => {
                self.undo_seq = count_up(self.undo_seq);
                let id = self.undo_seq;
                self.open_undo = Some(id);
                ctx.host.begin_undo_group(&*ctx.buf, id, self.cursor.offset);
                proof {
                    let call = HostCall::BeginGroup(id, self.cursor.offset, ctx.buf.doc());
                    self.told@ = self.told@.push(call);
                    lemma_one_call(*ctx.host, *old(ctx).host, old(self)@.told, call);
                }
                id
            },
        }
    }

    /// Open (or reuse) the undo group for the current logical command.
    pub(crate) fn begin_edit<B: VimBufferMut, H: VimHost>(&mut self, ctx: &mut Ctx<B, H>)
        ensures
            *final(final(ctx).buf) == *final(old(ctx).buf),
            *final(final(ctx).host) == *final(old(ctx).host),
            hears(*final(ctx).host, final(self)@.told, *old(ctx).host, old(self)@.told),
            final(ctx).world(*final(self)) == old(ctx).world(*old(self)).begin_edit(),
            final(ctx).env() == old(ctx).env(),
    {
        proof {
            reveal(World::begin_edit);
        }
        if !self.replaying {
            self.recording_mutated = true;
        }
        let _ = self.open_group(ctx);
    }

    /// Close any open undo group (end of a logical command or insert session).
    pub(crate) fn end_edit(&mut self)
        ensures
            final(self)@ == (Vim { open_undo: None, ..old(self)@ }),
    {
        self.open_undo = None;
    }
}

// ---- buffer edits (the ONLY mutation paths; keep marks in sync) ----------------------------

/// Where an offset of the last selection is once `[start, end)` is replaced by
/// `len` bytes: one inside falls back to the start.
pub open spec fn collapsed(pos: int, start: int, end: int, len: int) -> int {
    if pos >= end {
        min(pos - (end - start) + len, usize::MAX as int)
    } else if pos > start {
        start
    } else {
        pos
    }
}

fn collapse(pos: usize, start: usize, end: usize, len: usize) -> (r: usize)
    requires
        start <= end,
    ensures
        r == collapsed(pos as int, start as int, end as int, len as int),
{
    if pos >= end {
        plus(pos - (end - start), len)
    } else if pos > start {
        start
    } else {
        pos
    }
}

pub open spec fn collapsed_visual(
    v: Option<(usize, usize, VisualKind)>,
    start: int,
    end: int,
    len: int,
) -> Option<(usize, usize, VisualKind)> {
    match v {
        Some((a, b, kind)) => Some(
            (
                collapsed(a as int, start, end, len) as usize,
                collapsed(b as int, start, end, len) as usize,
                kind,
            ),
        ),
        None => None,
    }
}

pub open spec fn shifted_visual(s: Shift, v: Option<(usize, usize, VisualKind)>) -> Option<
    (usize, usize, VisualKind),
> {
    match v {
        Some((a, b, kind)) => Some(
            (s.shifted(a as int) as usize, s.shifted(b as int) as usize, kind),
        ),
        None => None,
    }
}

impl World {
    /// `text` inserted at `at`; marks and the last selection follow.
    #[verifier::opaque]
    pub open spec fn edit_insert<B: VimBufferMut>(self, at: int, text: Seq<char>) -> World {
        if text.len() == 0 {
            self
        } else {
            let shift = Shift::Insert { at: at as usize, len: cells(text).len() as usize };
            World {
                vim: Vim {
                    marks: self.vim.marks.moved(shift),
                    last_visual: shifted_visual(shift, self.vim.last_visual),
                    edit_generation: next_number(self.vim.edit_generation),
                    ..self.vim
                },
                doc: if self.editable {
                    B::edited(self.doc, at, at, text)
                } else {
                    self.doc
                },
                edition: if self.editable {
                    B::next_edition(self.edition)
                } else {
                    self.edition
                },
                ..self
            }
        }
    }

    /// `[start, end)` deleted; marks and the last selection follow.
    #[verifier::opaque]
    pub open spec fn edit_delete<B: VimBufferMut>(self, start: int, end: int) -> World {
        if start >= end {
            self
        } else {
            let shift = Shift::Delete { start: start as usize, end: end as usize };
            World {
                vim: Vim {
                    marks: self.vim.marks.moved(shift),
                    last_visual: shifted_visual(shift, self.vim.last_visual),
                    edit_generation: next_number(self.vim.edit_generation),
                    ..self.vim
                },
                doc: if self.editable {
                    B::edited(self.doc, start, end, Seq::empty())
                } else {
                    self.doc
                },
                edition: if self.editable {
                    B::next_edition(self.edition)
                } else {
                    self.edition
                },
                ..self
            }
        }
    }

    /// `[start, end)` replaced by `text`; marks and the last selection follow.
    #[verifier::opaque]
    pub open spec fn edit_replace<B: VimBufferMut>(
        self,
        start: int,
        end: int,
        text: Seq<char>,
    ) -> World {
        if start >= end {
            self.edit_insert::<B>(start, text)
        } else {
            let len = cells(text).len() as int;
            World {
                vim: Vim {
                    marks: self.vim.marks.moved(
                        Shift::Replace {
                            start: start as usize,
                            end: end as usize,
                            len: len as usize,
                        },
                    ),
                    last_visual: collapsed_visual(self.vim.last_visual, start, end, len),
                    edit_generation: next_number(self.vim.edit_generation),
                    ..self.vim
                },
                doc: if self.editable {
                    replaced::<B>(self.doc, start, end, text)
                } else {
                    self.doc
                },
                edition: if self.editable {
                    B::next_edition(B::next_edition(self.edition))
                } else {
                    self.edition
                },
                ..self
            }
        }
    }
}

pub(crate) fn text_is_empty(text: &str) -> (b: bool)
    ensures
        b == (text@.len() == 0),
{
    text.is_empty()
}

impl VimState {
    fn shift_visual(&mut self, s: &Shift)
        requires
            s.wf(),
        ensures
            final(self)@ == (Vim {
                last_visual: shifted_visual(*s, old(self)@.last_visual),
                ..old(self)@
            }),
    {
        if let Some((a, b, kind)) = self.last_visual {
            self.last_visual = Some((s.shift(a), s.shift(b), kind));
        }
    }

    fn collapse_visual(&mut self, start: usize, end: usize, len: usize)
        requires
            start <= end,
        ensures
            final(self)@ == (Vim {
                last_visual: collapsed_visual(
                    old(self)@.last_visual,
                    start as int,
                    end as int,
                    len as int,
                ),
                ..old(self)@
            }),
    {
        if let Some((a, b, kind)) = self.last_visual {
            self.last_visual = Some(
                (collapse(a, start, end, len), collapse(b, start, end, len), kind),
            );
        }
    }

    /// All engine buffer mutations go through these three wrappers so marks
    /// (`a-z`, `^ . < >`) and the last-visual span shift with the text. Never
    /// call `ctx.buf.insert_text/delete_range/replace_range` directly.
    pub(crate) fn edit_insert<B: VimBufferMut, H: VimHost>(
        &mut self,
        ctx: &mut Ctx<B, H>,
        at: usize,
        text: &str,
    )
        ensures
            *final(final(ctx).buf) == *final(old(ctx).buf),
            *final(final(ctx).host) == *final(old(ctx).host),
            hears(*final(ctx).host, final(self)@.told, *old(ctx).host, old(self)@.told),
            final(ctx).world(*final(self)) == old(ctx).world(*old(self)).edit_insert::<B>(
                at as int,
                text@,
            ),
            final(ctx).env() == old(ctx).env(),
    {
        proof {
            reveal(World::edit_insert);
        }
        if text_is_empty(text) {
            return;
        }
        ctx.buf.insert_text(at, text);
        let len = byte_len(text);
        self.marks.adjust_insert(at, len);
        self.shift_visual(&Shift::Insert { at, len });
        self.edit_generation = count_up(self.edit_generation);
    }

    pub(crate) fn edit_delete<B: VimBufferMut, H: VimHost>(
        &mut self,
        ctx: &mut Ctx<B, H>,
        range: Range<usize>,
    )
        ensures
            *final(final(ctx).buf) == *final(old(ctx).buf),
            *final(final(ctx).host) == *final(old(ctx).host),
            hears(*final(ctx).host, final(self)@.told, *old(ctx).host, old(self)@.told),
            final(ctx).world(*final(self)) == old(ctx).world(*old(self)).edit_delete::<B>(
                range.start as int,
                range.end as int,
            ),
            final(ctx).env() == old(ctx).env(),
    {
        proof {
            reveal(World::edit_delete);
        }
        let (start, end) = (range.start, range.end);
        if start >= end {
            return;
        }
        ctx.buf.delete_range(start..end);
        self.marks.adjust_delete(start..end);
        self.shift_visual(&Shift::Delete { start, end });
        self.edit_generation = count_up(self.edit_generation);
    }

    pub(crate) fn edit_replace<B: VimBufferMut, H: VimHost>(
        &mut self,
        ctx: &mut Ctx<B, H>,
        range: Range<usize>,
        text: &str,
    )
        ensures
            *final(final(ctx).buf) == *final(old(ctx).buf),
            *final(final(ctx).host) == *final(old(ctx).host),
            hears(*final(ctx).host, final(self)@.told, *old(ctx).host, old(self)@.told),
            final(ctx).world(*final(self)) == old(ctx).world(*old(self)).edit_replace::<B>(
                range.start as int,
                range.end as int,
                text@,
            ),
            final(ctx).env() == old(ctx).env(),
    {
        proof {
            reveal(World::edit_replace);
        }
        let (start, end) = (range.start, range.end);
        if start >= end {
            self.edit_insert(ctx, start, text);
            return;
        }
        ctx.buf.replace_range(start..end, text);
        let new_len = byte_len(text);
        self.marks.adjust_replace(start..end, new_len);
        self.collapse_visual(start, end, new_len);
        self.edit_generation = count_up(self.edit_generation);
    }
}

} // verus!
