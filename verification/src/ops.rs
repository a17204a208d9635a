//! Operators: applying delete/change/yank/indent/case to a span.
//!
//! This module owns vim's operator-range special cases:
//! - `w` as an operator target stops at the end of the last word moved over,
//!   so `dw` never joins lines.
//! - An exclusive motion ending in column 1 becomes inclusive at the end of
//!   the previous line (`d}` keeps the following blank line).
//! - Column 1 + start at/before first non-blank becomes linewise.
use crate::buffer::{
    at_column, char_display_width, clamp_to_line_end, column_of, display_column, display_width,
    offset_for_display_column, VimBuffer,
};
use crate::cells::width;
use crate::doc::{max, min, Doc};
use crate::mode::VisualKind;
use crate::motions::{Motion, MotionKind, MotionResult};
use crate::objects::{self, Extent, ObjectRange, TextObject};
use crate::search::pairs;
use crate::shift::plus;
use crate::state::{Vim, VimState};
use crate::word::{is_non_blank, non_blank_in};
use std::ops::Range;
use vstd::prelude::*;

verus! {

#[derive(Clone, Copy, Debug, PartialEq, Eq, Structural)]
pub enum Operator {
    Delete,
    Change,
    Yank,
    IndentLeft,
    IndentRight,
    Lowercase,
    Uppercase,
    ToggleCase,
    /// `gq` / `gw`
    Format,
}

/// A concrete span to operate on.
#[derive(Clone, Copy, Debug, PartialEq, Eq, Structural)]
pub struct OpSpan {
    pub start: usize,
    pub end: usize,
    pub linewise: bool,
}

pub open spec fn span(start: int, end: int, linewise: bool) -> OpSpan {
    OpSpan { start: start as usize, end: end as usize, linewise }
}

/// The lines from `a` to `b`, whole.
pub open spec fn line_span(d: Doc, a: int, b: int) -> OpSpan {
    span(d.line_start(a), d.line_stop(b), true)
}

/// Where the character at `o` ends.
pub open spec fn char_stop(d: Doc, o: int) -> int {
    match d.char_at(o) {
        Some(c) => o + width(c),
        None => o,
    }
}

fn char_end<B: VimBuffer>(buf: &B, o: usize) -> (r: usize)
    ensures
        r == char_stop(buf.doc(), o as int),
{
    match buf.next_char_offset(o) {
        Some(n) => n,
        None => o,
    }
}

pub(crate) fn lines_span<B: VimBuffer>(buf: &B, a: usize, b: usize) -> (s: OpSpan)
    ensures
        s == line_span(buf.doc(), a as int, b as int),
{
    OpSpan { start: buf.line_start(a), end: buf.line_range(b).end, linewise: true }
}

// ---- spans from motions ------------------------------------------------------------------

/// A character behind `o`, before `end`, is not blank.
pub open spec fn non_blank_behind(d: Doc, o: int, end: int) -> bool
    decreases d.len() - o,
{
    match d.next(o) {
        Some(n) => n < end && n <= d.len() && (non_blank_in(d, n) || non_blank_behind(d, n, end)),
        None => false,
    }
}

fn any_non_blank_behind<B: VimBuffer>(buf: &B, from: usize, end: usize) -> (b: bool)
    ensures
        b == non_blank_behind(buf.doc(), from as int, end as int),
{
    let ghost d = buf.doc();
    proof {
        buf.doc_wf();
    }
    let mut o: usize = from;
    loop
        invariant
            d == buf.doc(),
            d.wf(),
            non_blank_behind(d, o as int, end as int) == non_blank_behind(
                d,
                from as int,
                end as int,
            ),
        decreases d.len() - o,
    {
        proof {
            d.lemma_char_fits(o as int);
        }
        match buf.next_char_offset(o) {
            Some(n) => {
                if n >= end {
                    return false;
                }
                if is_non_blank(buf, n) {
                    return true;
                }
                o = n;
            },
            None => {
                return false;
            },
        }
    }
}

/// The span between the cursor at `start` and where a motion landed.
///
/// A linewise motion covers whole lines. `w` into another line ends at the end
/// of the line if it moved over a word. An exclusive motion forward to the
/// first column of another line ends at the end of the line before; it covers
/// whole lines if it started at or before the first non-blank.
pub open spec fn motion_span(d: Doc, start: int, m: Motion, r: MotionResult) -> OpSpan {
    let line = d.line_of(start);
    let target = d.clamp(r.offset as int);
    let to = d.line_of(target);
    let lo = min(start, target);
    let hi = max(start, target);
    if r.kind == MotionKind::Linewise {
        line_span(d, min(line, to), max(line, to))
    } else if m is WordStart && to != line && (non_blank_in(d, start) || non_blank_behind(
        d,
        start,
        d.line_end(line),
    )) {
        span(start, d.line_end(line), false)
    } else if r.kind == MotionKind::Exclusive && line < to && target == d.line_start(to) {
        if start <= d.first_non_blank(line) {
            line_span(d, line, to - 1)
        } else {
            span(start, d.line_end(to - 1), false)
        }
    } else if r.kind == MotionKind::Inclusive {
        span(lo, char_stop(d, hi), false)
    } else {
        span(lo, hi, false)
    }
}

/// Turn a motion result into an operator span, applying the special cases.
pub fn span_from_motion<B: VimBuffer>(
    vim: &VimState,
    buf: &B,
    motion: Motion,
    result: MotionResult,
) -> (s: OpSpan)
    ensures
        s == motion_span(buf.doc(), vim@.cursor.offset as int, motion, result),
{
    let ghost d = buf.doc();
    let start = vim.cursor.offset;
    let start_line = buf.offset_to_line(start);
    // a motion may land past a line's trailing newline (e.g. `w` at the
    // last word of a buffer lands in the phantom final line); anchor the
    // span to the line end so `dw` etc. never swallow the newline
    let target = clamp_to_line_end(buf, result.offset);
    let target_line = buf.offset_to_line(target);

    if result.kind == MotionKind::Linewise {
        return if start_line <= target_line {
            lines_span(buf, start_line, target_line)
        } else {
            lines_span(buf, target_line, start_line)
        };
    }
    // `w` operator special case: end the span at the end of the last word
    // moved over, so `dw` never joins lines.

    let is_word = match motion {
        Motion::WordStart { .. } => true,
        _ => false,
    };
    if is_word && target_line != start_line {
        let line_end = buf.line_end(start_line);
        if is_non_blank(buf, start) || any_non_blank_behind(buf, start, line_end) {
            return OpSpan { start, end: line_end, linewise: false };
        }
        // no word moved over: fall through to the column-1 rules
    }
    if result.kind == MotionKind::Exclusive && start_line < target_line && target
        == buf.line_start(target_line) {
        if start <= buf.first_non_blank(start_line) {
            // exclusive + column 1 + started at/before first non-blank:
            // becomes linewise over the lines fully covered
            return lines_span(buf, start_line, target_line - 1);
        }
        // exclusive + column 1: end moves to the end of the previous line;
        // the newline itself survives

        return OpSpan { start, end: buf.line_end(target_line - 1), linewise: false };
    }
    let (lo, hi) = if target >= start {
        (start, target)
    } else {
        (target, start)
    };
    if result.kind == MotionKind::Inclusive {
        OpSpan { start: lo, end: char_end(buf, hi), linewise: false }
    } else {
        OpSpan { start: lo, end: hi, linewise: false }
    }
}

/// `dw` from inside a word never joins lines: what `w` covers ends at the end
/// of its line at the latest.
pub proof fn dw_stays_in_line(d: Doc, start: int, big: bool, r: MotionResult)
    requires
        d.wf(),
        0 <= start <= d.line_end(d.line_of(start)),
        non_blank_in(d, start),
        r.kind == MotionKind::Exclusive,
        start <= r.offset,
    ensures
        motion_span(d, start, Motion::WordStart { big }, r).end <= d.line_end(d.line_of(start)),
        !motion_span(d, start, Motion::WordStart { big }, r).linewise,
{
    let line = d.line_of(start);
    d.lemma_line_of(start);
    d.lemma_line_bounds(line);
    d.lemma_clamp(r.offset as int);
    let target = d.clamp(r.offset as int);
    if d.line_of(target) == line {
        d.lemma_line_of(r.offset as int);
        d.lemma_line_bounds(d.line_of(r.offset as int));
        assert(target <= d.line_end(line)) by {
            d.lemma_line_of(target);
        }
    }
}

/// An exclusive motion forward that ends in the first column of a line stays
/// off that line: it covers whole lines up to there, if it started at or before
/// the first non-blank, and else leaves the newline before that line alone.
pub proof fn first_column_is_left_alone(d: Doc, start: int, m: Motion, r: MotionResult)
    requires
        d.wf(),
        d.len() <= usize::MAX,
        0 <= start <= usize::MAX,
        r.kind == MotionKind::Exclusive,
        ({
            let target = d.clamp(r.offset as int);
            d.line_of(start) < d.line_of(target) && target == d.line_start(d.line_of(target))
        }),
    ensures
        ({
            let s = motion_span(d, start, m, r);
            let line = d.line_of(start);
            let to = d.line_of(d.clamp(r.offset as int));
            if s.linewise {
                start <= d.first_non_blank(line) && s.start == d.line_start(line) && s.end
                    == d.line_start(to)
            } else {
                s.start == start && s.end <= d.line_end(to - 1)
            }
        }),
{
    let line = d.line_of(start);
    let target = d.clamp(r.offset as int);
    let to = d.line_of(target);
    d.lemma_clamp(r.offset as int);
    d.lemma_line_of(start);
    d.lemma_line_of(target);
    d.lemma_line_bounds(line);
    d.lemma_line_bounds(to - 1);
    if line < to - 1 {
        assert(d.line_stop(line) <= d.line_start(to - 1)) by {
            if line + 1 < to - 1 {
                assert(d.starts[line + 1] < d.starts[to - 1]);
            }
        }
    }
}

/// Span for a text object.
pub fn span_from_object<B: VimBuffer>(_buf: &B, object: ObjectRange) -> (s: OpSpan)
    ensures
        s == object_op_span(object.extent()),
{
    OpSpan { start: object.start, end: object.end, linewise: object.linewise }
}

pub open spec fn object_op_span(e: Extent) -> OpSpan {
    span(e.start, e.end, e.linewise)
}

/// The span of the object around `o`.
pub open spec fn object_span_at(d: Doc, o: int, object: TextObject) -> Option<OpSpan> {
    match object.extent(d, o) {
        Some(e) => Some(object_op_span(e)),
        None => None,
    }
}

/// Resolve a text object against the cursor.
pub fn object_span<B: VimBuffer>(vim: &VimState, buf: &B, object: TextObject) -> (s: Option<OpSpan>)
    ensures
        s == object_span_at(buf.doc(), vim@.cursor.offset as int, object),
{
    match objects::range(buf, vim.cursor.offset, object) {
        Some(range) => Some(span_from_object(buf, range)),
        None => None,
    }
}

// ---- spans from selections ------------------------------------------------------------------

impl Vim {
    /// `(anchor, cursor, kind)` of the selection, if there is one: in Visual
    /// mode, and while the `:` prompt is open on a selection.
    pub open spec fn selection(self) -> Option<(usize, usize, VisualKind)> {
        match self.visual_anchor {
            Some(anchor) => match self.mode {
                crate::mode::Mode::Visual { kind } => Some((anchor, self.cursor.offset, kind)),
                crate::mode::Mode::CommandLine { .. } => match self.cmdline_visual {
                    Some((kind, _)) => Some((anchor, self.cursor.offset, kind)),
                    None => None,
                },
                _ => None,
            },
            None => None,
        }
    }

    /// The span of a selection, whole lines for a linewise one. The character
    /// at its end belongs to it.
    #[verifier::opaque]
    pub open spec fn selected_span(self, d: Doc) -> Option<OpSpan> {
        match self.selection() {
            Some((anchor, cursor, kind)) => {
                let lo = min(anchor as int, cursor as int);
                let hi = max(anchor as int, cursor as int);
                Some(
                    if kind == VisualKind::Line {
                        line_span(d, d.line_of(lo), d.line_of(hi))
                    } else {
                        span(lo, char_stop(d, hi), false)
                    },
                )
            },
            None => None,
        }
    }
}

impl VimState {
    /// `(anchor, cursor, kind)` while in visual mode (raw, unnormalized).
    pub fn visual_selection(&self) -> (r: Option<(usize, usize, VisualKind)>)
        ensures
            r == self@.selection(),
    {
        let anchor = match self.visual_anchor {
            Some(anchor) => anchor,
            None => {
                return None;
            },
        };
        match self.mode {
            crate::mode::Mode::Visual { kind } => Some((anchor, self.cursor.offset, kind)),
            // the visual `:` prompt: keep the selection's original shape
            crate::mode::Mode::CommandLine { .. } => match self.cmdline_visual {
                Some((kind, _)) => Some((anchor, self.cursor.offset, kind)),
                None => None,
            },
            // outside visual there is no selection (a stale anchor must not
            // keep rendering one)
            _ => None,
        }
    }
}

/// Span for the current visual selection.
pub fn span_from_visual<B: VimBuffer>(vim: &VimState, buf: &B) -> (s: Option<OpSpan>)
    ensures
        s == vim@.selected_span(buf.doc()),
{
    proof {
        reveal(Vim::selected_span);
    }
    let (anchor, cursor, kind) = match vim.visual_selection() {
        Some(selection) => selection,
        None => {
            return None;
        },
    };
    let (lo, hi) = if anchor <= cursor {
        (anchor, cursor)
    } else {
        (cursor, anchor)
    };
    if kind == VisualKind::Line {
        Some(lines_span(buf, buf.offset_to_line(lo), buf.offset_to_line(hi)))
    } else {
        Some(OpSpan { start: lo, end: char_end(buf, hi), linewise: false })
    }
}

/// A rectangle of text: display columns `col_lo..col_hi` of the lines from
/// `first_line` on, one byte range per line. A row is empty where its line
/// ends before the rectangle.
pub struct BlockSpan {
    pub first_line: usize,
    pub col_lo: usize,
    pub col_hi: usize,
    pub rows: Vec<Range<usize>>,
}

/// The columns that the character at `o` ends before.
pub open spec fn column_behind(d: Doc, o: int) -> int {
    column_of(d, o) + match d.char_at(o) {
        Some(c) => display_width(c),
        None => 1,
    }
}

/// Where the columns before `col` end in line `i`: behind the last character
/// that begins before that column.
pub open spec fn columns_stop(d: Doc, i: int, col: int) -> int {
    let o = at_column(d, i, col);
    if o < d.line_end(i) && column_of(d, o) < col {
        char_stop(d, o)
    } else {
        o
    }
}

/// The part of line `i` in the columns `lo..hi`.
pub open spec fn block_row(d: Doc, i: int, lo: int, hi: int) -> (usize, usize) {
    (at_column(d, i, lo) as usize, columns_stop(d, i, hi) as usize)
}

/// The rows of the lines `first..last`.
pub open spec fn block_rows(d: Doc, first: int, last: int, lo: int, hi: int) -> Seq<(usize, usize)> {
    Seq::new((last - first + 1) as nat, |k: int| block_row(d, first + k, lo, hi))
}

/// The extent of a block selection: its first line, columns and rows.
pub struct BlockView {
    pub first_line: usize,
    pub col_lo: usize,
    pub col_hi: usize,
    pub rows: Seq<(usize, usize)>,
}

impl View for BlockSpan {
    type V = BlockView;

    open spec fn view(&self) -> BlockView {
        BlockView {
            first_line: self.first_line,
            col_lo: self.col_lo,
            col_hi: self.col_hi,
            rows: pairs(self.rows@),
        }
    }
}

impl Vim {
    /// The rectangle between the two ends of a selection.
    #[verifier::opaque]
    pub open spec fn selected_block(self, d: Doc) -> Option<BlockView> {
        match self.selection() {
            Some((anchor, cursor, _)) => {
                let a = anchor as int;
                let c = cursor as int;
                let first = min(d.line_of(a), d.line_of(c));
                let last = max(d.line_of(a), d.line_of(c));
                let lo = min(column_of(d, a), column_of(d, c));
                let hi = min(max(column_behind(d, a), column_behind(d, c)), usize::MAX as int);
                Some(
                    BlockView {
                        first_line: first as usize,
                        col_lo: lo as usize,
                        col_hi: hi as usize,
                        rows: block_rows(d, first, last, lo, hi),
                    },
                )
            },
            None => None,
        }
    }
}

fn column_end<B: VimBuffer>(buf: &B, o: usize) -> (r: usize)
    ensures
        r == min(column_behind(buf.doc(), o as int), usize::MAX as int),
{
    let wide: usize = match buf.char_at(o) {
        Some(c) => char_display_width(c),
        None => 1,
    };
    plus(display_column(buf, o), wide)
}

fn columns_end<B: VimBuffer>(buf: &B, line: usize, col: usize) -> (r: usize)
    ensures
        r == columns_stop(buf.doc(), line as int, col as int),
{
    let o = offset_for_display_column(buf, line, col);
    if o < buf.line_end(line) && display_column(buf, o) < col {
        char_end(buf, o)
    } else {
        o
    }
}

/// The rectangle of the current visual selection.
pub fn span_from_visual_block<B: VimBuffer>(vim: &VimState, buf: &B) -> (s: Option<BlockSpan>)
    ensures
        match s {
            Some(b) => vim@.selected_block(buf.doc()) == Some(b@),
            None => vim@.selected_block(buf.doc()) is None,
        },
{
    proof {
        reveal(Vim::selected_block);
    }
    let ghost d = buf.doc();
    let (a, c, _) = match vim.visual_selection() {
        Some(selection) => selection,
        None => {
            return None;
        },
    };
    proof {
        buf.doc_wf();
        d.lemma_line_of(a as int);
        d.lemma_line_of(c as int);
    }
    let (line_a, line_c) = (buf.offset_to_line(a), buf.offset_to_line(c));
    let (first, last) = if line_a <= line_c {
        (line_a, line_c)
    } else {
        (line_c, line_a)
    };
    let (col_a, col_c) = (display_column(buf, a), display_column(buf, c));
    let lo: usize = if col_a <= col_c {
        col_a
    } else {
        col_c
    };
    let (end_a, end_c) = (column_end(buf, a), column_end(buf, c));
    let hi: usize = if end_a >= end_c {
        end_a
    } else {
        end_c
    };
    let rows = rows_between(buf, first, last, lo, hi);
    Some(BlockSpan { first_line: first, col_lo: lo, col_hi: hi, rows })
}

fn rows_between<B: VimBuffer>(buf: &B, first: usize, last: usize, lo: usize, hi: usize) -> (r: Vec<
    Range<usize>,
>)
    requires
        first <= last < buf.doc().line_count(),
    ensures
        pairs(r@) == block_rows(
            buf.doc(),
            first as int,
            last as int,
            lo as int,
            hi as int,
        ),
{
    let ghost d = buf.doc();
    let ghost all = block_rows(d, first as int, last as int, lo as int, hi as int);
    proof {
        buf.doc_wf();
    }
    let mut r: Vec<Range<usize>> = Vec::new();
    let mut k: usize = 0;
    let n: usize = last - first + 1;
    while k < n
        invariant
            d == buf.doc(),
            d.wf(),
            first <= last < d.line_count(),
            n == last - first + 1,
            k <= n,
            all == block_rows(d, first as int, last as int, lo as int, hi as int),
            pairs(r@) == all.take(k as int),
        decreases n - k,
    {
        let line = first + k;
        let start = offset_for_display_column(buf, line, lo);
        let end = columns_end(buf, line, hi);
        let ghost before = pairs(r@);
        r.push(start..end);
        proof {
            assert(pairs(r@) =~= before.push((start, end)));
            assert(all[k as int] == (start, end));
            assert(all.take(k + 1) =~= before.push((start, end)));
        }
        k = k + 1;
    }
    proof {
        assert(all.take(k as int) =~= all);
    }
    r
}

/// A block has a row for each of its lines.
pub proof fn lemma_block_lines(v: Vim, d: Doc)
    requires
        d.wf(),
    ensures
        v.selected_block(d) matches Some(b) ==> 0 < b.rows.len() && b.first_line + b.rows.len()
            <= d.line_count(),
{
    reveal(Vim::selected_block);
    if let Some((a, c, _)) = v.selection() {
        d.lemma_line_of(a as int);
        d.lemma_line_of(c as int);
    }
}

} // verus!
