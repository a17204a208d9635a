//! What is painted over one line: highlights, the selection and the caret.
//!
//! Hosts render their own buffer lines and ask [`compute_line_overlays`] what
//! goes over each visible one. Colors, fonts and pixels are the host's.
use crate::buffer::VimBuffer;
use crate::cells::{cells, char_len, width};
use crate::doc::{max, Doc};
use crate::flat::{clamp_into, clamped};
use crate::mode::VisualKind;
use crate::ops::{span_from_visual, span_from_visual_block};
use crate::search::{opt_pair, pair_of, pairs};
use crate::state::{Vim, VimState};
use crate::strs::byte_len;
use crate::text::cells_of;
use std::ops::Range;
use vstd::prelude::*;

verus! {

/// What a quad stands for; the host picks its color.
#[derive(Clone, Copy, Debug, PartialEq, Eq, Structural)]
pub enum Paint {
    Search,
    /// The match the cursor sits on.
    SearchCurrent,
    /// Text that an input method is composing.
    Mark,
    Selection,
}

/// One overlay rectangle over the line.
#[derive(Debug, PartialEq, Eq)]
pub struct OverlayQuad {
    /// Byte range within the line.
    pub range: Range<usize>,
    pub color: Paint,
    /// True stretches the quad over the full line width (linewise
    /// selection), ignoring `range`'s shape.
    pub full_width: bool,
}

/// What an [`OverlayQuad`] covers.
pub struct Quad {
    pub start: int,
    pub end: int,
    pub color: Paint,
    pub full_width: bool,
}

impl View for OverlayQuad {
    type V = Quad;

    open spec fn view(&self) -> Quad {
        Quad {
            start: self.range.start as int,
            end: self.range.end as int,
            color: self.color,
            full_width: self.full_width,
        }
    }
}

pub open spec fn quads(v: Seq<OverlayQuad>) -> Seq<Quad> {
    v.map_values(|q: OverlayQuad| q@)
}

/// Quads and caret geometry for one rendered line, in line-local byte
/// coordinates (subtract the line's byte start before painting).
#[derive(Debug, PartialEq, Eq)]
pub struct LineOverlays {
    pub quads: Vec<OverlayQuad>,
    /// Byte column of the caret within the line, if this is the caret line.
    pub cursor: Option<usize>,
    pub cursor_block: bool,
}

impl Default for LineOverlays {
    /// A line with nothing over it.
    fn default() -> (o: Self)
        ensures
            o.quads@.len() == 0,
            o.cursor is None,
            !o.cursor_block,
    {
        LineOverlays { quads: Vec::new(), cursor: None, cursor_block: false }
    }
}

/// Everything [`compute_line_overlays`] needs for one line.
pub struct LineOverlayInputs<'a, B: VimBuffer> {
    pub vim: &'a VimState,
    pub buf: &'a B,
    pub line: usize,
    /// Active search highlights (host-published), buffer byte ranges.
    pub search_highlights: &'a [Range<usize>],
    /// The match the cursor sits on, shown as [`Paint::SearchCurrent`].
    pub search_current: Option<Range<usize>>,
    /// IME composition range, if composing.
    pub ime_marked: Option<Range<usize>>,
    /// Blink phase: false hides the caret without touching the engine.
    pub caret_visible: bool,
}

// ---- model ---------------------------------------------------------------------------------------

/// The part of `[a, b)` within the line from `start` to `end`, counted from
/// the line's start; nothing where that is empty.
pub open spec fn line_local(a: int, b: int, start: int, end: int) -> Option<(int, int)> {
    let s = clamped(a, start, end) - start;
    let e = clamped(b, start, end) - start;
    if s < e {
        Some((s, e))
    } else {
        None
    }
}

/// At most one quad: what a range covers of a line.
pub open spec fn quad_for(a: int, b: int, d: Doc, line: int, color: Paint) -> Seq<Quad> {
    match line_local(a, b, d.line_start(line), d.line_end(line)) {
        Some((start, end)) => seq![Quad { start, end, color, full_width: false }],
        None => Seq::empty(),
    }
}

/// The quads of the search hits, in order.
pub open spec fn hit_quads(
    hits: Seq<(usize, usize)>,
    current: Option<(usize, usize)>,
    d: Doc,
    line: int,
) -> Seq<Quad>
    decreases hits.len(),
{
    if hits.len() == 0 {
        Seq::empty()
    } else {
        let hit = hits.last();
        hit_quads(hits.drop_last(), current, d, line) + quad_for(
            hit.0 as int,
            hit.1 as int,
            d,
            line,
            if current == Some(hit) {
                Paint::SearchCurrent
            } else {
                Paint::Search
            },
        )
    }
}

pub open spec fn mark_quads(marked: Option<(usize, usize)>, d: Doc, line: int) -> Seq<Quad> {
    match marked {
        Some((a, b)) => quad_for(a as int, b as int, d, line, Paint::Mark),
        None => Seq::empty(),
    }
}

/// The selection on a line: all of it for a linewise one, its row of a block.
pub open spec fn selection_quads(vim: Vim, d: Doc, line: int) -> Seq<Quad> {
    match (vim.selected_span(d), vim.selection()) {
        (Some(span), Some((_, _, kind))) => match kind {
            VisualKind::Block => match vim.selected_block(d) {
                Some(block) => if block.first_line <= line < block.first_line + block.rows.len() {
                    let row = block.rows[line - block.first_line];
                    quad_for(row.0 as int, row.1 as int, d, line, Paint::Selection)
                } else {
                    Seq::empty()
                },
                None => Seq::empty(),
            },
            VisualKind::Line => if d.line_of(span.start as int) <= line <= d.line_of(
                max(span.end - 1, span.start as int),
            ) {
                seq![Quad { start: 0, end: 0, color: Paint::Selection, full_width: true }]
            } else {
                Seq::empty()
            },
            VisualKind::Char => quad_for(
                span.start as int,
                span.end as int,
                d,
                line,
                Paint::Selection,
            ),
        },
        _ => Seq::empty(),
    }
}

// ---- computing -----------------------------------------------------------------------------------

/// Clamp a buffer range to the line and translate it to line-local
/// coordinates. `None` when the clamped range is empty (nothing of the
/// range lies within this line).
fn to_line_local(a: usize, b: usize, line_start: usize, line_end: usize) -> (r: Option<Range<usize>>)
    requires
        line_start <= line_end,
    ensures
        r is Some == line_local(a as int, b as int, line_start as int, line_end as int) is Some,
        r matches Some(v) ==> line_local(
            a as int,
            b as int,
            line_start as int,
            line_end as int,
        ) == Some((v.start as int, v.end as int)),
{
    let start = clamp_into(a, line_start, line_end) - line_start;
    let end = clamp_into(b, line_start, line_end) - line_start;
    if start < end {
        Some(start..end)
    } else {
        None
    }
}

fn push_quad<B: VimBuffer>(
    out: &mut Vec<OverlayQuad>,
    buf: &B,
    line: usize,
    a: usize,
    b: usize,
    color: Paint,
)
    ensures
        quads(final(out)@) == quads(old(out)@) + quad_for(
            a as int,
            b as int,
            buf.doc(),
            line as int,
            color,
        ),
{
    proof {
        buf.doc_wf();
        buf.doc().lemma_line_bounds(line as int);
    }
    let ghost before = out@;
    if let Some(range) = to_line_local(a, b, buf.line_start(line), buf.line_end(line)) {
        let quad = OverlayQuad { range, color, full_width: false };
        let ghost one = quad@;
        out.push(quad);
        proof {
            assert(quads(out@) =~= quads(before).push(one));
            assert(quads(before).push(one) =~= quads(before) + seq![one]);
        }
    } else {
        proof {
            assert(quads(out@) =~= quads(before) + Seq::empty());
        }
    }
}

fn push_hits<B: VimBuffer>(out: &mut Vec<OverlayQuad>, inputs: &LineOverlayInputs<B>)
    ensures
        quads(final(out)@) == quads(old(out)@) + hit_quads(
            pairs(inputs.search_highlights@),
            opt_pair(inputs.search_current),
            inputs.buf.doc(),
            inputs.line as int,
        ),
{
    let ghost before = quads(out@);
    let ghost hits = pairs(inputs.search_highlights@);
    let ghost current = opt_pair(inputs.search_current);
    let ghost d = inputs.buf.doc();
    let mut i: usize = 0;
    proof {
        assert(hits.take(0) =~= Seq::empty());
        assert(quads(out@) =~= before + Seq::empty());
    }
    while i < inputs.search_highlights.len()
        invariant
            i <= inputs.search_highlights.len(),
            hits == pairs(inputs.search_highlights@),
            current == opt_pair(inputs.search_current),
            d == inputs.buf.doc(),
            quads(out@) == before + hit_quads(hits.take(i as int), current, d, inputs.line as int),
        decreases inputs.search_highlights.len() - i,
    {
        proof {
            assert(hits.take(i + 1).drop_last() =~= hits.take(i as int));
            assert(hits.take(i + 1).last() == pair_of(inputs.search_highlights@[i as int]));
        }
        let (a, b) = (inputs.search_highlights[i].start, inputs.search_highlights[i].end);
        let is_current = match &inputs.search_current {
            Some(r) => r.start == a && r.end == b,
            None => false,
        };
        let color = if is_current {
            Paint::SearchCurrent
        } else {
            Paint::Search
        };
        push_quad(out, inputs.buf, inputs.line, a, b, color);
        i = i + 1;
        proof {
            assert(quads(out@) =~= before + hit_quads(
                hits.take(i as int),
                current,
                d,
                inputs.line as int,
            ));
        }
    }
    proof {
        assert(hits.take(i as int) =~= hits);
    }
}

fn push_mark<B: VimBuffer>(out: &mut Vec<OverlayQuad>, inputs: &LineOverlayInputs<B>)
    ensures
        quads(final(out)@) == quads(old(out)@) + mark_quads(
            opt_pair(inputs.ime_marked),
            inputs.buf.doc(),
            inputs.line as int,
        ),
{
    let ghost before = quads(out@);
    if let Some(marked) = &inputs.ime_marked {
        push_quad(out, inputs.buf, inputs.line, marked.start, marked.end, Paint::Mark);
    } else {
        proof {
            assert(quads(out@) =~= before + Seq::empty());
        }
    }
}

fn push_block_row<B: VimBuffer>(out: &mut Vec<OverlayQuad>, inputs: &LineOverlayInputs<B>)
    ensures
        quads(final(out)@) == quads(old(out)@) + match inputs.vim@.selected_block(
            inputs.buf.doc(),
        ) {
            Some(block) => if block.first_line <= inputs.line < block.first_line
                + block.rows.len() {
                let row = block.rows[inputs.line - block.first_line];
                quad_for(
                    row.0 as int,
                    row.1 as int,
                    inputs.buf.doc(),
                    inputs.line as int,
                    Paint::Selection,
                )
            } else {
                Seq::empty()
            },
            None => Seq::empty(),
        },
{
    let ghost before = quads(out@);
    let line = inputs.line;
    if let Some(block) = span_from_visual_block(inputs.vim, inputs.buf) {
        proof {
            assert(pairs(block.rows@).len() == block.rows@.len());
        }
        if line >= block.first_line && line - block.first_line < block.rows.len() {
            let i = line - block.first_line;
            proof {
                assert(pairs(block.rows@)[i as int] == pair_of(block.rows@[i as int]));
            }
            push_quad(
                out,
                inputs.buf,
                line,
                block.rows[i].start,
                block.rows[i].end,
                Paint::Selection,
            );
            return ;
        }
    }
    proof {
        assert(quads(out@) =~= before + Seq::empty());
    }
}

fn push_selection<B: VimBuffer>(out: &mut Vec<OverlayQuad>, inputs: &LineOverlayInputs<B>)
    ensures
        quads(final(out)@) == quads(old(out)@) + selection_quads(
            inputs.vim@,
            inputs.buf.doc(),
            inputs.line as int,
        ),
{
    let ghost before = quads(out@);
    let (buf, line) = (inputs.buf, inputs.line);
    proof {
        assert(quads(out@) =~= before + Seq::empty());
    }
    let (span, kind) = match (span_from_visual(inputs.vim, buf), inputs.vim.visual_selection()) {
        (Some(span), Some((_, _, kind))) => (span, kind),
        _ => {
            return ;
        },
    };
    match kind {
        VisualKind::Block => push_block_row(out, inputs),
        // linewise selection: one full-width quad per line it covers
        VisualKind::Line => {
            let first = buf.offset_to_line(span.start);
            let last_byte = if span.end > span.start {
                span.end - 1
            } else {
                span.start
            };
            let last = buf.offset_to_line(last_byte);
            if line >= first && line <= last {
                let quad = OverlayQuad { range: 0..0, color: Paint::Selection, full_width: true };
                let ghost one = quad@;
                let ghost seen = out@;
                out.push(quad);
                proof {
                    assert(quads(out@) =~= quads(seen).push(one));
                    assert(quads(seen).push(one) =~= before + seq![one]);
                }
            }
        },
        VisualKind::Char => push_quad(out, buf, line, span.start, span.end, Paint::Selection),
    }
}

/// Compute the overlay quads and caret geometry for one line. The line must
/// exist in the buffer; hosts render `~` placeholders themselves.
pub fn compute_line_overlays<B: VimBuffer>(inputs: &LineOverlayInputs<B>) -> (o: LineOverlays)
    ensures
        quads(o.quads@) == hit_quads(
            pairs(inputs.search_highlights@),
            opt_pair(inputs.search_current),
            inputs.buf.doc(),
            inputs.line as int,
        ) + mark_quads(opt_pair(inputs.ime_marked), inputs.buf.doc(), inputs.line as int)
            + selection_quads(inputs.vim@, inputs.buf.doc(), inputs.line as int),
        o.cursor is Some == (inputs.caret_visible && inputs.buf.doc().line_of(
            inputs.vim@.cursor.offset as int,
        ) == inputs.line),
        o.cursor matches Some(c) ==> c == inputs.vim@.cursor.offset - inputs.buf.doc().line_start(
            inputs.line as int,
        ),
        o.cursor_block == !inputs.vim@.mode.inserting(),
{
    let (vim, buf, line) = (inputs.vim, inputs.buf, inputs.line);
    let mut quads: Vec<OverlayQuad> = Vec::new();
    proof {
        assert(self::quads(quads@) =~= Seq::empty());
    }
    push_hits(&mut quads, inputs);
    push_mark(&mut quads, inputs);
    push_selection(&mut quads, inputs);
    proof {
        buf.doc_wf();
        buf.doc().lemma_line_of(vim@.cursor.offset as int);
        let (h, m, s) = (
            hit_quads(
                pairs(inputs.search_highlights@),
                opt_pair(inputs.search_current),
                buf.doc(),
                line as int,
            ),
            mark_quads(opt_pair(inputs.ime_marked), buf.doc(), line as int),
            selection_quads(vim@, buf.doc(), line as int),
        );
        assert(Seq::<Quad>::empty() + h + m + s =~= h + m + s);
    }
    let cursor_line = buf.offset_to_line(vim.cursor_offset());
    let cursor = if line == cursor_line && inputs.caret_visible {
        Some(vim.cursor_offset() - buf.line_start(line))
    } else {
        None
    };
    LineOverlays { quads, cursor, cursor_block: vim.cursor_is_block() }
}

/// A quad that does not span the line lies within its contents.
pub proof fn quads_lie_on_their_line(a: int, b: int, d: Doc, line: int, color: Paint)
    requires
        d.wf(),
        0 <= line,
    ensures
        forall|i: int|
            0 <= i < quad_for(a, b, d, line, color).len() ==> {
                let q = #[trigger] quad_for(a, b, d, line, color)[i];
                0 <= q.start < q.end <= d.line_end(line) - d.line_start(line)
            },
{
    d.lemma_line_bounds(line);
}

/// Over all lines, a range is covered exactly where it lies: a byte of a line's
/// contents is under the range's quad just if it is in the range.
pub proof fn quads_cover_their_range(a: int, b: int, d: Doc, line: int, color: Paint, o: int)
    requires
        d.wf(),
        0 <= line,
        d.line_start(line) <= o < d.line_end(line),
    ensures
        (a <= o < b) <==> (quad_for(a, b, d, line, color).len() == 1 && {
            let q = quad_for(a, b, d, line, color)[0];
            q.start <= o - d.line_start(line) < q.end
        }),
{
}

// ---- runs ----------------------------------------------------------------------------------------

/// The byte range of the char starting at `at` within `text` (`None` past
/// the end or on a non-boundary).
pub fn char_range_at(text: &str, at: usize) -> (r: Option<Range<usize>>)
    ensures
        match r {
            Some(v) => at < cells(text@).len() && cells(text@)[at as int] is Some && v.start == at
                && v.end == at + width(cells(text@)[at as int]->0) && v.end <= cells(text@).len(),
            None => at >= cells(text@).len() || cells(text@)[at as int] is None,
        },
{
    let t = cells_of(text);
    if at >= t.len() {
        return None;
    }
    match t[at] {
        Some(c) => {
            proof {
                assert(crate::cells::char_fits(t@, at as int));
            }
            Some(at..at + char_len(c))
        },
        None => None,
    }
}

/// A run, unless it is empty.
pub open spec fn run_of(len: int, inverted: bool) -> Seq<(int, bool)> {
    if len > 0 {
        seq![(len, inverted)]
    } else {
        Seq::empty()
    }
}

/// How a line is cut up for shaping: each run's length, and whether it is the
/// character under a block cursor, which is painted inverted.
pub open spec fn runs_of(len: int, inverted: Option<(usize, usize)>) -> Seq<(int, bool)> {
    match inverted {
        Some((a, b)) => run_of(a as int, false) + run_of(b - a, true) + run_of(len - b, false),
        None => run_of(len, false),
    }
}

pub open spec fn run_lengths(v: Seq<(usize, bool)>) -> Seq<(int, bool)> {
    v.map_values(|run: (usize, bool)| (run.0 as int, run.1))
}

fn push_run(out: &mut Vec<(usize, bool)>, len: usize, inverted: bool)
    ensures
        run_lengths(final(out)@) == run_lengths(old(out)@) + run_of(len as int, inverted),
{
    let ghost before = out@;
    if len > 0 {
        out.push((len, inverted));
    }
    proof {
        assert(run_lengths(out@) =~= run_lengths(before) + run_of(len as int, inverted));
    }
}

/// Split the line into shaped runs: plain text, or text / inverted cursor
/// char / text when the block cursor sits on this line.
pub fn build_runs(text: &str, inverted: Option<Range<usize>>) -> (v: Vec<(usize, bool)>)
    requires
        inverted matches Some(r) ==> r.start <= r.end <= cells(text@).len(),
    ensures
        run_lengths(v@) == runs_of(cells(text@).len() as int, opt_pair(inverted)),
{
    let len = byte_len(text);
    let mut out: Vec<(usize, bool)> = Vec::new();
    match inverted {
        Some(range) => {
            let (a, b) = (range.start, range.end);
            push_run(&mut out, a, false);
            push_run(&mut out, b - a, true);
            push_run(&mut out, len - b, false);
        },
        None => push_run(&mut out, len, false),
    }
    proof {
        assert(run_lengths(out@) =~= runs_of(len as int, opt_pair(inverted)));
    }
    out
}

// ---- the caret -----------------------------------------------------------------------------------

/// Caret blink state. Input keeps the caret solid and restarts the phase
/// (`note_activity` on every user interaction); the host's timer calls
/// [`CaretBlinker::tick`].
#[derive(Clone, Copy, Debug, PartialEq, Eq, Structural)]
pub struct CaretBlinker {
    visible: bool,
    phase_reset: bool,
}

impl CaretBlinker {
    pub closed spec fn shown(self) -> bool {
        self.visible
    }

    /// The next tick leaves the caret visible.
    pub closed spec fn restarted(self) -> bool {
        self.phase_reset
    }

    pub fn new() -> (b: Self)
        ensures
            b.shown(),
            !b.restarted(),
    {
        CaretBlinker { visible: true, phase_reset: false }
    }

    /// Keep the caret visible and restart the blink phase (on user input).
    pub fn note_activity(&mut self)
        ensures
            final(self).shown(),
            final(self).restarted(),
    {
        self.phase_reset = true;
        self.visible = true;
    }

    pub fn is_visible(&self) -> (b: bool)
        ensures
            b == self.shown(),
    {
        self.visible
    }

    /// Half a period went by.
    pub fn tick(&mut self)
        ensures
            final(self).shown() == (old(self).restarted() || !old(self).shown()),
            !final(self).restarted(),
    {
        if self.phase_reset {
            self.phase_reset = false;
            self.visible = true;
        } else {
            self.visible = !self.visible;
        }
    }
}

} // verus!
