//! Selections.
use crate::buffer::{clamp_to_line_end, VimBuffer, VimBufferMut};
use crate::doc::{max, min, Doc};
use crate::host::{hears, HostCall, VimHost};
use crate::marks::MarkSet;
use crate::mode::{Mode, VisualKind};
use crate::shift::plus;
use crate::state::{Ctx, Vim, VimState, World};
use vstd::prelude::*;

verus! {

/// A click at `offset`: in the text, not behind its line.
pub open spec fn click(d: Doc, offset: int) -> int {
    d.clamp(min(offset, d.len()))
}

fn clicked<B: VimBuffer>(buf: &B, offset: usize) -> (o: usize)
    ensures
        o == click(buf.doc(), offset as int),
{
    let len = buf.len();
    clamp_to_line_end(
        buf,
        if offset <= len {
            offset
        } else {
            len
        },
    )
}

impl Vim {
    /// The cursor moved by the host; a selection begins anew there.
    pub open spec fn clicked(self, d: Doc, offset: int) -> Vim {
        let at = click(d, offset);
        let v = self.moved_to(at);
        if self.mode is Visual {
            Vim { visual_anchor: Some(at as usize), ..v }
        } else {
            v
        }
    }

    /// A selection made by the host.
    pub open spec fn dragged(self, d: Doc, anchor: int, cursor: int) -> Vim {
        let v = Vim { visual_anchor: Some(click(d, anchor) as usize), ..self.at(click(d, cursor)) };
        if self.mode is Visual {
            v
        } else {
            Vim { mode: Mode::Visual { kind: VisualKind::Char }, ..v }
        }
    }

    pub open spec fn enter_visual(self, kind: VisualKind) -> Vim {
        Vim {
            visual_anchor: Some(self.cursor.offset),
            mode: Mode::Visual { kind },
            marks: MarkSet {
                active_visual: Some((self.cursor.offset, self.cursor.offset)),
                ..self.marks
            },
            ..self
        }
    }

    /// The selection as `'<` and `'>` remember it: its first offset and the
    /// one behind its last.
    pub open spec fn selection_bounds(self) -> Option<(usize, usize)> {
        match self.selection() {
            Some((anchor, cursor, _)) => Some(
                (
                    min(anchor as int, cursor as int) as usize,
                    min(max(anchor as int, cursor as int) + 1, usize::MAX as int) as usize,
                ),
            ),
            None => None,
        }
    }

    /// The selection remembered for `gv` and the marks `<` and `>`.
    pub open spec fn remember_selection(self) -> Vim {
        match (self.selection_bounds(), self.selection()) {
            (Some((lo, end)), Some((_, _, kind))) => Vim {
                marks: MarkSet { last_visual: Some((lo, end)), ..self.marks },
                last_visual: Some((lo, end, kind)),
                ..self
            },
            _ => self,
        }
    }

    /// Back in Normal mode, the selection gone but remembered.
    #[verifier::opaque]
    pub open spec fn exit_visual(self) -> Vim {
        let v = self.remember_selection();
        let v = match self.selection_bounds() {
            Some((lo, _)) => v.at(lo as int),
            None => v,
        };
        Vim {
            visual_anchor: None,
            marks: MarkSet { active_visual: None, ..v.marks },
            mode: Mode::Normal,
            ..v
        }.discard_record().say(HostCall::Changed)
    }

    /// A selection that an operator was applied to: remembered, then gone.
    #[verifier::opaque]
    pub open spec fn drop_selection(self) -> Vim {
        let v = self.discard_record().remember_selection();
        Vim {
            visual_anchor: None,
            mode: if v.mode.inserting() {
                v.mode
            } else {
                Mode::Normal
            },
            ..v
        }
    }
}

impl World {
    pub open spec fn exit_visual(self) -> World {
        World { vim: self.vim.exit_visual(), ..self }
    }

    /// After an operator on a selection.
    #[verifier::opaque]
    pub open spec fn finish_visual_op(self) -> World {
        let w = World { vim: self.vim.drop_selection(), ..self };
        w.at(w.doc.clamp(w.cursor())).say(HostCall::Changed)
    }
}

impl VimState {
    /// Host-initiated cursor move (e.g. a mouse click).
    pub fn set_cursor_offset<B: VimBuffer>(&mut self, buf: &B, offset: usize)
        ensures
            final(self)@ == old(self)@.clicked(buf.doc(), offset as int),
    {
        let offset = clicked(buf, offset);
        self.place(offset);
        if self.mode.is_visual() {
            self.visual_anchor = Some(offset);
        }
    }

    /// Host-initiated visual selection (e.g. a mouse drag).
    pub fn set_visual_range<B: VimBuffer>(&mut self, buf: &B, anchor: usize, cursor: usize)
        ensures
            final(self)@ == old(self)@.dragged(buf.doc(), anchor as int, cursor as int),
    {
        self.visual_anchor = Some(clicked(buf, anchor));
        let at = clicked(buf, cursor);
        self.set_offset(at);
        if !self.mode.is_visual() {
            self.mode = Mode::Visual { kind: VisualKind::Char };
        }
    }

    pub(crate) fn enter_visual(&mut self, kind: VisualKind)
        ensures
            final(self)@ == old(self)@.enter_visual(kind),
    {
        let at = self.cursor.offset;
        self.visual_anchor = Some(at);
        self.mode = Mode::Visual { kind };
        self.marks.set_active_visual(Some((at, at)));
    }

    fn selection_bounds(&self) -> (r: Option<(usize, usize)>)
        ensures
            r == self@.selection_bounds(),
    {
        match self.visual_selection() {
            Some((anchor, cursor, _)) => Some(
                if anchor <= cursor {
                    (anchor, plus(cursor, 1))
                } else {
                    (cursor, plus(anchor, 1))
                },
            ),
            None => None,
        }
    }

    fn remember_selection(&mut self)
        ensures
            final(self)@ == old(self)@.remember_selection(),
    {
        if let (Some((lo, end)), Some((_, _, kind))) = (
            self.selection_bounds(),
            self.visual_selection(),
        ) {
            self.marks.set_last_visual(Some((lo, end)));
            self.last_visual = Some((lo, end, kind));
        }
    }

    pub(crate) fn exit_visual<B: VimBufferMut, H: VimHost>(&mut self, ctx: &mut Ctx<B, H>)
        ensures
            *final(final(ctx).buf) == *final(old(ctx).buf),
            *final(final(ctx).host) == *final(old(ctx).host),
            hears(*final(ctx).host, final(self)@.told, *old(ctx).host, old(self)@.told),
            final(ctx).world(*final(self)) == old(ctx).world(*old(self)).exit_visual(),
            final(ctx).env() == old(ctx).env(),
    {
        proof {
            reveal(Vim::exit_visual);
        }
        let bounds = self.selection_bounds();
        self.remember_selection();
        if let Some((lo, _)) = bounds {
            self.set_offset(lo);
            self.leave_selection();
            self.discard_change_record();
            self.notify_changed(ctx);
        } else {
            self.leave_selection();
            self.discard_change_record();
            self.notify_changed(ctx);
        }
    }

    fn leave_selection(&mut self)
        ensures
            final(self)@ == (Vim {
                visual_anchor: None,
                marks: MarkSet { active_visual: None, ..old(self)@.marks },
                mode: Mode::Normal,
                ..old(self)@
            }),
    {
        self.visual_anchor = None;
        self.marks.set_active_visual(None);
        self.mode = Mode::Normal;
    }

    fn drop_selection(&mut self)
        ensures
            final(self)@ == old(self)@.drop_selection(),
            final(self)@.told == old(self)@.told,
    {
        proof {
            reveal(Vim::drop_selection);
        }
        self.discard_change_record();
        self.remember_selection();
        self.visual_anchor = None;
        self.mode = if self.mode.is_inserting() {
            self.mode
        } else {
            Mode::Normal
        };
    }

    pub(crate) fn finish_visual_op<B: VimBufferMut, H: VimHost>(&mut self, ctx: &mut Ctx<B, H>)
        ensures
            *final(final(ctx).buf) == *final(old(ctx).buf),
            *final(final(ctx).host) == *final(old(ctx).host),
            hears(*final(ctx).host, final(self)@.told, *old(ctx).host, old(self)@.told),
            final(ctx).world(*final(self)) == old(ctx).world(*old(self)).finish_visual_op(),
            final(ctx).env() == old(ctx).env(),
    {
        proof {
            reveal(World::finish_visual_op);
        }
        self.drop_selection();
        self.clamp_cursor(ctx);
        self.notify_changed(ctx);
    }
}

} // verus!
