//! Moving the cursor.
use crate::buffer::{
    at_column, clamp_to_line_end, display_width, offset_for_display_column, width_between, VimBuffer,
    VimBufferMut,
};
use crate::doc::{max, min};
use crate::host::{hears, HostCall, VimHost};
use crate::marks::MarkSet;
use crate::mode::Mode;
use crate::motions::{landing, searched, Motion, MotionKind, MotionResult};
use crate::shift::plus;
use crate::state::{Ctx, Cursor, Vim, VimState, World};
use vstd::prelude::*;

verus! {

impl Motion {
    /// The motion keeps the column.
    pub open spec fn keeps_column(self) -> bool {
        match self {
            Motion::Up
            | Motion::Down
            | Motion::ScrollHalfDown
            | Motion::ScrollHalfUp
            | Motion::PageUp
            | Motion::PageDown => true,
            _ => false,
        }
    }

    fn preserves_column(self) -> (b: bool)
        ensures
            b == self.keeps_column(),
    {
        match self {
            Motion::Up
            | Motion::Down
            | Motion::ScrollHalfDown
            | Motion::ScrollHalfUp
            | Motion::PageUp
            | Motion::PageDown => true,
            _ => false,
        }
    }
}

impl Vim {
    /// The marks `<` and `>` follow a selection that is being made.
    pub open spec fn with_live_bounds(self) -> Vim {
        match (self.mode, self.visual_anchor) {
            (Mode::Visual { .. }, Some(anchor)) => Vim {
                marks: MarkSet {
                    active_visual: Some(
                        (
                            min(anchor as int, self.cursor.offset as int) as usize,
                            min(
                                max(anchor as int, self.cursor.offset as int) + 1,
                                usize::MAX as int,
                            ) as usize,
                        ),
                    ),
                    ..self.marks
                },
                ..self
            },
            _ => self,
        }
    }
}

impl World {
    /// Where a motion puts the cursor. It never stands behind its line. A
    /// vertical motion keeps to its column, another linewise motion goes to
    /// the first non-blank.
    #[verifier::opaque]
    pub open spec fn landed(self, m: Motion, r: MotionResult) -> Cursor {
        let o = self.doc.clamp(r.offset as int);
        let line = self.doc.line_of(o);
        if r.kind == MotionKind::Linewise {
            if m.keeps_column() {
                Cursor {
                    offset: at_column(self.doc, line, self.vim.column(self.doc)) as usize,
                    desired_col: Some(self.vim.column(self.doc) as usize),
                }
            } else {
                Cursor {
                    offset: self.doc.first_non_blank(line) as usize,
                    desired_col: None,
                }
            }
        } else {
            Cursor {
                offset: o as usize,
                desired_col: if m.keeps_column() {
                    self.vim.cursor.desired_col
                } else {
                    None
                },
            }
        }
    }

    /// The cursor moved to where a motion landed; a selection follows and the
    /// host scrolls there.
    #[verifier::opaque]
    pub open spec fn land(self, m: Motion, r: MotionResult) -> World {
        let w = World {
            vim: Vim { cursor: self.landed(m, r), ..self.vim }.with_live_bounds(),
            ..self
        };
        w.say(HostCall::Scroll(w.line()))
    }

    /// A motion can be made.
    pub open spec fn can_go<B: VimBuffer>(self, seen: (usize, usize), m: Motion, count: int) -> bool {
        landing::<B>(self.vim, self.doc, seen, m, count).moved
    }

    /// The engine after the search that a motion makes.
    pub open spec fn search<B: VimBuffer>(self, m: Motion, count: int) -> World {
        World { vim: searched::<B>(self.vim, self.doc, m, count), ..self }
    }

    /// A motion made, if it can be; a jump is noted in the jumplist.
    #[verifier::opaque]
    pub open spec fn go<B: VimBuffer>(self, seen: (usize, usize), m: Motion, count: int) -> World {
        let r = landing::<B>(self.vim, self.doc, seen, m, count);
        let w = self.search::<B>(m, count);
        if !r.moved {
            w
        } else {
            let to = w.land(m, r);
            if m.jumps() {
                World {
                    vim: to.vim.record_jump(self.vim.cursor.offset, to.vim.cursor.offset),
                    ..to
                }
            } else {
                to
            }
        }
    }
}

/// A motion that fails leaves the cursor where it is.
pub proof fn failed_motion_stays<B: VimBuffer>(w: World, seen: (usize, usize), m: Motion, count: int)
    requires
        !w.can_go::<B>(seen, m, count),
    ensures
        w.go::<B>(seen, m, count).vim.cursor == w.vim.cursor,
        w.go::<B>(seen, m, count).doc == w.doc,
{
    reveal(World::go);
    reveal(searched);
    reveal(Vim::with_fresh_matches);
    reveal(Vim::with_word_pattern);
    reveal(Vim::with_pattern);
}

/// A cursor that was moved by a motion stands in its line, not behind it.
pub proof fn landed_in_line(w: World, m: Motion, r: MotionResult)
    requires
        w.doc.wf(),
    ensures
        w.landed(m, r).offset <= w.doc.line_end(w.doc.line_of(w.landed(m, r).offset as int)),
{
    reveal(World::landed);
    let o = w.doc.clamp(r.offset as int);
    w.doc.lemma_clamp(r.offset as int);
    let line = w.doc.line_of(o);
    w.doc.lemma_line_of(o);
    w.doc.lemma_line_bounds(line);
    w.doc.lemma_first_non_blank(line);
    lemma_in_line(w.doc, line, w.doc.first_non_blank(line));
    crate::buffer::lemma_column_in(
        w.doc,
        w.doc.line_start(line),
        w.doc.line_end(line),
        w.vim.column(w.doc),
    );
    lemma_in_line(w.doc, line, at_column(w.doc, line, w.vim.column(w.doc)));
}

/// An offset between a line's start and its end is in that line.
pub proof fn lemma_in_line(d: crate::doc::Doc, line: int, o: int)
    requires
        d.wf(),
        0 <= line < d.line_count(),
        d.line_start(line) <= o <= d.line_end(line),
    ensures
        o <= d.line_end(d.line_of(o)),
{
    d.lemma_line_bounds(line);
    d.lemma_line_of(o);
    if line + 1 < d.line_count() {
        if o < d.line_start(line + 1) {
            d.lemma_line_of_unique(o, line);
        } else {
            d.lemma_line_bounds(d.line_of(o));
            crate::operators::lemma_line_order(d, d.line_start(line + 1), o);
        }
    } else {
        d.lemma_line_of_unique(o, line);
    }
}

/// A vertical motion ends on its line, at the column it keeps to.
pub proof fn lemma_goes_to_line<B: VimBuffer>(w: World, seen: (usize, usize), m: Motion, count: int, to: int)
    requires
        w.doc.wf(),
        w.doc.len() <= usize::MAX,
        m is Up || m is Down,
        to == crate::motions::lines_away(
            w.doc,
            w.doc.line_of(w.vim.cursor.offset as int),
            count,
            m is Down,
        ),
        0 <= to < w.doc.line_count(),
        to != w.doc.line_of(w.vim.cursor.offset as int),
        to + 1 < w.doc.line_count() ==> w.doc.line_end(to) < w.doc.line_stop(to),
        0 <= w.vim.column(w.doc) <= usize::MAX,
    ensures
        w.go::<B>(seen, m, count).doc == w.doc,
        w.go::<B>(seen, m, count).vim.cursor == (Cursor {
            offset: at_column(w.doc, to, w.vim.column(w.doc)) as usize,
            desired_col: Some(w.vim.column(w.doc) as usize),
        }),
        w.doc.line_of(at_column(w.doc, to, w.vim.column(w.doc))) == to,
        0 <= at_column(w.doc, to, w.vim.column(w.doc)) <= w.doc.len(),
{
    let d = w.doc;
    let o = at_column(d, to, w.vim.column(d));
    d.lemma_line_bounds(to);
    crate::buffer::lemma_column_in(d, d.line_start(to), d.line_end(to), w.vim.column(d));
    d.lemma_line_of_unique(o, to);
    reveal(landing);
    reveal(searched);
    reveal(World::go);
    reveal(World::land);
    reveal(World::landed);
}

/// Going down and up again by the same number of lines brings the cursor back
/// to its character, however short the line in between is: the column is
/// remembered. The cursor stands on a character that takes up a column or at
/// the end of its line and keeps to no other column than its own.
pub proof fn down_and_up_come_back<B: VimBuffer>(w: World, seen: (usize, usize), count: int)
    requires
        w.doc.wf(),
        w.doc.len() <= usize::MAX,
        ({
            let d = w.doc;
            let o = w.vim.cursor.offset as int;
            let line = d.line_of(o);
            let to = line + count;
            &&& 1 <= count
            &&& to < d.line_count()
            &&& d.line_end(line) < d.line_stop(line)
            &&& to + 1 < d.line_count() ==> d.line_end(to) < d.line_stop(to)
            &&& d.at_boundary(o)
            &&& o <= d.line_end(line)
            &&& o == d.line_end(line) || (d.char_at(o) matches Some(c) && display_width(c) > 0)
            &&& w.vim.column(d) == width_between(d, d.line_start(line), o)
        }),
    ensures
        w.go::<B>(seen, Motion::Down, count).go::<B>(seen, Motion::Up, count).vim.cursor.offset
            == w.vim.cursor.offset,
{
    let d = w.doc;
    let o = w.vim.cursor.offset as int;
    let line = d.line_of(o);
    let to = line + count;
    d.lemma_line_of(o);
    d.lemma_line_bounds(line);
    crate::buffer::lemma_width_between_nonneg(d, d.line_start(line), o);
    lemma_goes_to_line::<B>(w, seen, Motion::Down, count, to);
    let down = w.go::<B>(seen, Motion::Down, count);
    lemma_goes_to_line::<B>(down, seen, Motion::Up, count, line);
    crate::buffer::column_falls_on_its_character(d, d.line_start(line), o, d.line_end(line));
}

impl VimState {
    fn follow_selection(&mut self)
        ensures
            final(self)@ == old(self)@.with_live_bounds(),
    {
        if self.mode.is_visual() {
            if let Some(anchor) = self.visual_anchor {
                let cursor = self.cursor.offset;
                let (a, c) = if anchor <= cursor {
                    (anchor, cursor)
                } else {
                    (cursor, anchor)
                };
                self.marks.set_active_visual(Some((a, plus(c, 1))));
            }
        }
    }

    fn set_cursor(&mut self, cursor: Cursor)
        ensures
            final(self)@ == (Vim { cursor, ..old(self)@ }),
    {
        self.cursor = cursor;
    }

    fn landed<B: VimBuffer>(&self, buf: &B, motion: Motion, result: MotionResult) -> (c: Cursor)
        ensures
            forall|w: World|
                w.vim == self@ && w.doc == buf.doc() ==> c == #[trigger] w.landed(motion, result),
    {
        proof {
            reveal(World::landed);
        }
        let keeps = motion.preserves_column();
        let offset = clamp_to_line_end(buf, result.offset);
        let line = buf.offset_to_line(offset);
        if result.kind == MotionKind::Linewise {
            if keeps {
                // the goal column must be read BEFORE the cursor lands: once
                // the cursor sits on a wide char that clamped it, the derived
                // column would be the clamped one, not the original
                let desired = self.desired_column(buf);
                Cursor {
                    offset: offset_for_display_column(buf, line, desired),
                    desired_col: Some(desired),
                }
            } else {
                Cursor { offset: buf.first_non_blank(line), desired_col: None }
            }
        } else {
            Cursor {
                offset,
                desired_col: if keeps {
                    self.cursor.desired_col
                } else {
                    None
                },
            }
        }
    }

    pub(crate) fn apply_motion_result<B: VimBufferMut, H: VimHost>(
        &mut self,
        ctx: &mut Ctx<B, H>,
        motion: Motion,
        result: MotionResult,
    )
        ensures
            *final(final(ctx).buf) == *final(old(ctx).buf),
            *final(final(ctx).host) == *final(old(ctx).host),
            hears(*final(ctx).host, final(self)@.told, *old(ctx).host, old(self)@.told),
            final(ctx).world(*final(self)) == old(ctx).world(*old(self)).land(motion, result),
            final(ctx).env().clip == old(ctx).env().clip,
    {
        proof {
            reveal(World::land);
        }
        let cursor = self.landed(&*ctx.buf, motion, result);
        proof {
            assert(cursor == ctx.world(*self).landed(motion, result));
        }
        self.set_cursor(cursor);
        self.follow_selection();
        let line = ctx.buf.offset_to_line(self.cursor.offset);
        self.scroll_to(ctx, line);
    }

    pub(crate) fn goto_motion<B: VimBufferMut, H: VimHost>(
        &mut self,
        ctx: &mut Ctx<B, H>,
        motion: Motion,
        count: usize,
    ) -> (moved: bool)
        ensures
            *final(final(ctx).buf) == *final(old(ctx).buf),
            *final(final(ctx).host) == *final(old(ctx).host),
            hears(*final(ctx).host, final(self)@.told, *old(ctx).host, old(self)@.told),
            final(ctx).world(*final(self)) == old(ctx).world(*old(self)).go::<B>(
                old(ctx).env().seen,
                motion,
                max(count as int, 1),
            ),
            moved == old(ctx).world(*old(self)).can_go::<B>(
                old(ctx).env().seen,
                motion,
                max(count as int, 1),
            ),
            final(ctx).env().clip == old(ctx).env().clip,
    {
        proof {
            reveal(World::go);
        }
        let origin = self.cursor.offset;
        let result = motion.target(self, ctx, count);
        if !result.moved {
            return false;
        }
        self.apply_motion_result(ctx, motion, result);
        if motion.is_jump() {
            let dest = self.cursor.offset;
            self.record_jump(origin, dest);
        }
        true
    }
}

} // verus!
