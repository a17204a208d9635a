//! The host-facing text model.
//!
//! The engine never owns the buffer: the host implements [`VimBuffer`] (and
//! [`VimBufferMut`] if it wants the engine to edit). All offsets are **UTF-8
//! byte offsets**.
use crate::cells::{cells, char_len, width};
use crate::chars::{char_columns, columns};
use crate::doc::{all_blanks, line_grew, min, splice, Doc};
use std::ops::Range;
use vstd::prelude::*;

verus! {

/// Read-only text access with line semantics.
///
/// Lines are 0-based. A line's range extends over its terminating `\n` when
/// present. An empty buffer still has exactly one line.
pub trait VimBuffer {
    /// What the buffer holds.
    spec fn doc(&self) -> Doc;

    proof fn doc_wf(&self)
        ensures
            self.doc().wf(),
    ;

    /// Total length in bytes.
    fn len(&self) -> (n: usize)
        ensures
            n == self.doc().len(),
    ;

    fn is_empty(&self) -> (b: bool)
        ensures
            b == (self.doc().len() == 0),
    {
        self.len() == 0
    }

    /// Number of lines (>= 1).
    fn line_count(&self) -> (n: usize)
        ensures
            n == self.doc().line_count(),
    ;

    /// The character that starts at byte `offset`, if `offset` is a char
    /// boundary inside the buffer.
    fn char_at(&self, offset: usize) -> (c: Option<char>)
        ensures
            c == self.doc().char_at(offset as int),
    ;

    /// The byte offset of the character that *ends* at `offset`
    /// (i.e. the previous char boundary), if any.
    fn prev_char_offset(&self, offset: usize) -> (p: Option<usize>)
        ensures
            p is Some == self.doc().prev(offset as int) is Some,
            p matches Some(v) ==> self.doc().prev(offset as int) == Some(v as int),
    ;

    /// `[start, end)` covering `line` including its newline, if any.
    fn line_range(&self, line: usize) -> (r: Range<usize>)
        ensures
            r.start == self.doc().line_start(line as int),
            r.end == self.doc().line_stop(line as int),
    ;

    /// The 0-based line containing byte `offset`.
    fn offset_to_line(&self, offset: usize) -> (l: usize)
        ensures
            l == self.doc().line_of(offset as int),
    ;

    /// What the byte range `[a, b)` of a text copies out as, where one of the
    /// ends may lie inside a character.
    spec fn piece(d: Doc, a: int, b: int) -> Seq<char>;

    /// Between two character boundaries that is the text in between.
    proof fn piece_exact(d: Doc, a: int, b: int)
        requires
            d.wf(),
            d.is_range(a, b),
        ensures
            Self::piece(d, a, b) == d.slice(a, b),
    ;

    /// Copy a byte range out of the buffer.
    fn slice(&self, range: Range<usize>) -> (s: String)
        ensures
            s@ == Self::piece(self.doc(), range.start as int, range.end as int),
            self.doc().is_range(range.start as int, range.end as int) ==> s@ == self.doc().slice(
                range.start as int,
                range.end as int,
            ),
    ;

    // ---- provided helpers -------------------------------------------------

    fn line_start(&self, line: usize) -> (o: usize)
        ensures
            o == self.doc().line_start(line as int),
    {
        self.line_range(line).start
    }

    /// Offset of the line's end, *before* the newline.
    fn line_end(&self, line: usize) -> (o: usize)
        ensures
            o == self.doc().line_end(line as int),
    {
        let range = self.line_range(line);
        if range.end > range.start {
            if let Some(c) = self.char_at(range.end - 1) {
                if c == '\n' {
                    return range.end - 1;
                }
            }
        }
        range.end
    }

    fn line_content(&self, line: usize) -> (s: String)
        ensures
            s@ == self.doc().slice(
                self.doc().line_start(line as int),
                self.doc().line_end(line as int),
            ),
    {
        proof {
            self.doc_wf();
            self.doc().lemma_line_bounds(line as int);
        }
        let range = self.line_range(line);
        let end = self.line_end(line);
        self.slice(range.start..end)
    }

    fn next_char_offset(&self, offset: usize) -> (n: Option<usize>)
        ensures
            n is Some == self.doc().next(offset as int) is Some,
            n matches Some(v) ==> self.doc().next(offset as int) == Some(v as int),
    {
        proof {
            self.doc_wf();
            self.doc().lemma_char_fits(offset as int);
        }
        match self.char_at(offset) {
            Some(c) => Some(offset + char_len(c)),
            None => None,
        }
    }

    /// Byte length of the leading indentation of `line`, and whether the line
    /// is blank.
    fn line_indent(&self, line: usize) -> (r: (usize, bool))
        ensures
            r.0 == self.doc().indent(line as int),
            r.1 == self.doc().is_blank(line as int),
    {
        proof {
            self.doc_wf();
            self.doc().lemma_line_bounds(line as int);
            self.doc().lemma_first_non_blank(line as int);
        }
        let start = self.line_start(line);
        let end = self.line_end(line);
        let mut offset: usize = start;
        while offset < end
            invariant
                self.doc().wf(),
                start <= offset <= end <= self.doc().len(),
                start == self.doc().line_start(line as int),
                end == self.doc().line_end(line as int),
                self.doc().after_indent(offset as int, end as int) == self.doc().after_indent(
                    start as int,
                    end as int,
                ),
            decreases end - offset,
        {
            match self.char_at(offset) {
                Some(c) => {
                    if c == ' ' || c == '\t' {
                        offset = offset + 1;
                    } else {
                        return (offset - start, false);
                    }
                },
                None => {
                    return (offset - start, false);
                },
            }
        }
        (offset - start, true)
    }

    /// Offset of the first non-blank character of `line` (line end if blank).
    fn first_non_blank(&self, line: usize) -> (o: usize)
        ensures
            o == self.doc().first_non_blank(line as int),
    {
        proof {
            self.doc_wf();
            self.doc().lemma_first_non_blank(line as int);
        }
        let start = self.line_start(line);
        let (indent, _) = self.line_indent(line);
        let end = self.line_end(line);
        let at: usize = start + indent;
        if at <= end {
            at
        } else {
            end
        }
    }

    /// Is `offset` at (or past) the end of its line, before the newline?
    fn at_line_end(&self, offset: usize) -> (b: bool)
        ensures
            b == (offset >= self.doc().line_end(self.doc().line_of(offset as int))),
    {
        let line = self.offset_to_line(offset);
        offset >= self.line_end(line)
    }

    fn line_is_blank(&self, line: usize) -> (b: bool)
        ensures
            b == self.doc().is_blank(line as int),
    {
        self.line_indent(line).1
    }
}

/// Mutating text access. Every engine edit funnels through the two required
/// methods, which keeps the undo transaction boundary visible to the host.
pub trait VimBufferMut: VimBuffer {
    /// Edits take effect; a read-only buffer ignores them.
    spec fn editable(&self) -> bool;

    /// The buffer's model once it holds the text `t`.
    spec fn doc_of(t: Seq<Option<char>>) -> Doc;

    /// What the buffer holds once `[a, b)` is replaced by `with`, where one of
    /// the ends may lie inside a character.
    spec fn edited(d: Doc, a: int, b: int, with: Seq<char>) -> Doc;

    /// The buffer stores this text as it is.
    spec fn takes(with: Seq<char>) -> bool;

    /// Which edition of its text the buffer holds; a buffer that does not count
    /// them is always in the same.
    spec fn edition(&self) -> u64;

    /// The edition that an edit makes of edition `n`.
    spec fn next_edition(n: u64) -> u64;

    /// Between two character boundaries exactly what lies in between is
    /// replaced.
    proof fn edited_exact(d: Doc, a: int, b: int, with: Seq<char>)
        requires
            d.wf(),
            d.is_range(a, b),
            with.len() == 0 || Self::takes(with),
        ensures
            Self::edited(d, a, b, with).cells == splice(d.cells, a, b, cells(with)),
            Self::edited(d, a, b, with) == Self::doc_of(splice(d.cells, a, b, cells(with))),
    ;

    /// Blanks are stored as they are. At the start of a line that is not blank
    /// they belong to that line: it grows by them.
    proof fn blanks_join_their_line(d: Doc, i: int, blanks: Seq<char>)
        requires
            d.wf(),
            d == Self::doc_of(d.cells),
            0 <= i < d.line_count(),
            !d.is_blank(i),
            blanks.len() > 0,
            all_blanks(blanks),
        ensures
            Self::takes(blanks),
            line_grew(
                d,
                Self::doc_of(
                    splice(d.cells, d.line_start(i), d.line_start(i), cells(blanks)),
                ),
                i,
                cells(blanks).len() as int,
            ),
    ;

    fn insert_text(&mut self, offset: usize, text: &str)
        ensures
            final(self).editable() == old(self).editable(),
            final(self).edition() == if old(self).editable() {
                Self::next_edition(old(self).edition())
            } else {
                old(self).edition()
            },
            final(self).doc() == if old(self).editable() {
                Self::edited(old(self).doc(), offset as int, offset as int, text@)
            } else {
                old(self).doc()
            },
    ;

    fn delete_range(&mut self, range: Range<usize>)
        ensures
            final(self).editable() == old(self).editable(),
            final(self).edition() == if old(self).editable() {
                Self::next_edition(old(self).edition())
            } else {
                old(self).edition()
            },
            final(self).doc() == if old(self).editable() {
                Self::edited(
                    old(self).doc(),
                    range.start as int,
                    range.end as int,
                    Seq::empty(),
                )
            } else {
                old(self).doc()
            },
    ;

    fn replace_range(&mut self, range: Range<usize>, text: &str)
        ensures
            final(self).editable() == old(self).editable(),
            final(self).edition() == if old(self).editable() {
                Self::next_edition(Self::next_edition(old(self).edition()))
            } else {
                old(self).edition()
            },
            final(self).doc() == if old(self).editable() {
                Self::edited(
                    Self::edited(
                        old(self).doc(),
                        range.start as int,
                        range.end as int,
                        Seq::empty(),
                    ),
                    range.start as int,
                    range.start as int,
                    text@,
                )
            } else {
                old(self).doc()
            },
    {
        let start = range.start;
        self.delete_range(range);
        self.insert_text(start, text);
    }
}

/// What the buffer holds once `[a, b)` is deleted and `with` put in its place.
pub open spec fn replaced<B: VimBufferMut>(
    d: Doc,
    a: int,
    b: int,
    with: Seq<char>,
) -> Doc {
    B::edited(B::edited(d, a, b, Seq::empty()), a, a, with)
}

/// A replacement between two character boundaries is one splice of the text.
pub proof fn replaced_exact<B: VimBufferMut>(d: Doc, a: int, b: int, with: Seq<char>)
    requires
        d.wf(),
        d.is_range(a, b),
        with.len() == 0 || B::takes(with),
        B::edited(d, a, b, Seq::empty()).wf(),
    ensures
        replaced::<B>(d, a, b, with).cells == splice(d.cells, a, b, cells(with)),
        replaced::<B>(d, a, b, with) == B::edited(d, a, b, with),
{
    let e = B::edited(d, a, b, Seq::empty());
    B::edited_exact(d, a, b, Seq::empty());
    assert(e.cells =~= d.cells.take(a) + d.cells.skip(b));
    assert(e.at_boundary(a)) by {
        if 0 < a < e.len() {
            assert(e.cells[a] == d.cells[b]);
        }
    }
    B::edited_exact(e, a, a, with);
    B::edited_exact(d, a, b, with);
    assert(splice(e.cells, a, a, cells(with)) =~= splice(d.cells, a, b, cells(with)));
}

/// Clamp helper: never park the cursor inside the `\n`.
pub fn clamp_to_line_end<B: VimBuffer>(buf: &B, offset: usize) -> (o: usize)
    ensures
        o == buf.doc().clamp(offset as int),
{
    let line = buf.offset_to_line(offset);
    let end = buf.line_end(line);
    if offset <= end {
        offset
    } else {
        end
    }
}

// ---- display columns ------------------------------------------------------------

/// How many columns a character takes up; a control character counts as one.
pub open spec fn display_width(c: char) -> int {
    match columns(c) {
        Some(w) => w as int,
        None => 1,
    }
}

/// The columns that the characters from `o` up to `end` take up.
pub open spec fn width_between(d: Doc, o: int, end: int) -> int
    decreases end - o + 4,
{
    if o >= end {
        0
    } else {
        match d.char_at(o) {
            Some(c) => display_width(c) + width_between(d, o + width(c), end),
            None => 0,
        }
    }
}

/// The first character in `[o, end)` that reaches beyond the next `left`
/// columns; `end` when none does.
pub open spec fn column_in(d: Doc, o: int, end: int, left: int) -> int
    decreases end - o + 4,
{
    if o >= end {
        end
    } else {
        match d.char_at(o) {
            Some(c) => if display_width(c) > left {
                o
            } else {
                column_in(d, o + width(c), end, left - display_width(c))
            },
            None => end,
        }
    }
}

/// The display column of `o` within its line.
pub open spec fn column_of(d: Doc, o: int) -> int {
    min(width_between(d, d.line_start(d.line_of(o)), o), usize::MAX as int)
}

/// The offset on line `i` that display column `col` falls on.
pub open spec fn at_column(d: Doc, i: int, col: int) -> int {
    column_in(d, d.line_start(i), d.line_end(i), col)
}

/// Display width of one character: 0 for a combining mark, 2 for a wide one.
pub fn char_display_width(c: char) -> (w: usize)
    ensures
        w == display_width(c),
{
    match char_columns(c) {
        Some(w) => w,
        None => 1,
    }
}

/// The display column of `offset` (wide characters cover two).
pub fn display_column<B: VimBuffer>(buf: &B, offset: usize) -> (col: usize)
    ensures
        col == column_of(buf.doc(), offset as int),
{
    let ghost d = buf.doc();
    proof {
        buf.doc_wf();
        d.lemma_line_of(offset as int);
    }
    let start = buf.line_start(buf.offset_to_line(offset));
    let ghost total = width_between(d, start as int, offset as int);
    let ghost mut sum: int = 0;
    let mut col: usize = 0;
    let mut o: usize = start;
    while o < offset
        invariant
            d == buf.doc(),
            d.wf(),
            start == d.line_start(d.line_of(offset as int)),
            total == width_between(d, start as int, offset as int),
            0 <= sum,
            sum + width_between(d, o as int, offset as int) == total,
            col == min(sum, usize::MAX as int),
        decreases d.len() - o,
    {
        proof {
            d.lemma_char_fits(o as int);
        }
        match buf.char_at(o) {
            Some(c) => {
                let w = char_display_width(c);
                col = if col <= usize::MAX - w {
                    col + w
                } else {
                    usize::MAX
                };
                proof {
                    sum = sum + w;
                    lemma_width_between_nonneg(d, o + width(c), offset as int);
                }
                o = o + char_len(c);
            },
            None => {
                return col;
            },
        }
    }
    col
}

pub proof fn lemma_width_between_nonneg(d: Doc, o: int, end: int)
    ensures
        0 <= width_between(d, o, end),
    decreases end - o + 4,
{
    if o < end {
        if let Some(c) = d.char_at(o) {
            lemma_width_between_nonneg(d, o + width(c), end);
        }
    }
}

/// The offset on `line` that display column `col` falls on; the line's end
/// when the line is shorter.
pub fn offset_for_display_column<B: VimBuffer>(buf: &B, line: usize, col: usize) -> (r: usize)
    ensures
        r == at_column(buf.doc(), line as int, col as int),
        r <= buf.doc().line_end(line as int),
{
    let ghost d = buf.doc();
    proof {
        buf.doc_wf();
        d.lemma_line_bounds(line as int);
    }
    let start = buf.line_start(line);
    let end = buf.line_end(line);
    let mut left: usize = col;
    let mut o: usize = start;
    while o < end
        invariant
            d == buf.doc(),
            d.wf(),
            end == d.line_end(line as int),
            column_in(d, o as int, end as int, left as int) == at_column(
                d,
                line as int,
                col as int,
            ),
        decreases d.len() - o,
    {
        proof {
            d.lemma_char_fits(o as int);
        }
        match buf.char_at(o) {
            Some(c) => {
                let w = char_display_width(c);
                if w > left {
                    return o;
                }
                left = left - w;
                o = o + char_len(c);
            },
            None => {
                return end;
            },
        }
    }
    end
}

/// A column of a line lies on one of its boundaries.
pub proof fn lemma_column_in(d: Doc, o: int, end: int, left: int)
    requires
        d.wf(),
        0 <= o,
        end <= d.len(),
        d.at_boundary(end),
    ensures
        o <= end ==> o <= column_in(d, o, end, left),
        column_in(d, o, end, left) <= end,
        d.at_boundary(column_in(d, o, end, left)),
    decreases end - o + 4,
{
    d.lemma_char_fits(o);
    if o < end {
        if let Some(c) = d.char_at(o) {
            if display_width(c) <= left {
                lemma_column_in(d, o + width(c), end, left - display_width(c));
                if o + width(c) > end {
                    assert(crate::cells::char_fits(d.cells, o));
                    assert(d.cells[end] is None);
                }
            }
        }
    }
}

/// The column of a character falls on that character again, unless it takes
/// up no column of its own.
pub proof fn column_falls_on_its_character(d: Doc, from: int, o: int, end: int)
    requires
        d.wf(),
        0 <= from <= o <= end <= d.len(),
        d.at_boundary(from),
        d.at_boundary(o),
        o == end || (d.char_at(o) matches Some(c) && display_width(c) > 0),
    ensures
        column_in(d, from, end, width_between(d, from, o)) == o,
    decreases o - from,
{
    d.lemma_char_fits(from);
    if from < o {
        let c = d.cells[from]->0;
        assert(crate::cells::char_fits(d.cells, from));
        if from + width(c) > o {
            assert(d.cells[o] is None);
        }
        lemma_width_between_nonneg(d, from + width(c), o);
        column_falls_on_its_character(d, from + width(c), o, end);
    }
}

// ---- grapheme clusters ------------------------------------------------------------

pub const ZERO_WIDTH_JOINER: char = '\u{200D}';

/// The character at `o` takes up no column: it joins the cluster before it.
pub open spec fn joins_cluster(d: Doc, o: int) -> bool {
    d.char_at(o) matches Some(c) && display_width(c) == 0
}

/// The end of the cluster whose characters so far end at `n`.
pub open spec fn cluster_end(d: Doc, n: int) -> int
    decreases d.len() - n,
{
    match d.next(n) {
        Some(m) => if m > d.len() || !joins_cluster(d, n) {
            n
        } else if d.char_at(n) == Some(ZERO_WIDTH_JOINER) && d.char_at(m) != Some('\n') {
            match d.next(m) {
                Some(k) => if k > d.len() {
                    m
                } else {
                    cluster_end(d, k)
                },
                None => m,
            }
        } else {
            cluster_end(d, m)
        },
        None => n,
    }
}

/// The start of the cluster that holds the character at `p`.
pub open spec fn cluster_start(d: Doc, p: int) -> int
    decreases p,
{
    match d.prev(p) {
        Some(q) => if 0 <= q < p && d.char_at(q) != Some('\n') && (joins_cluster(d, p)
            || d.char_at(q) == Some(ZERO_WIDTH_JOINER)) {
            cluster_start(d, q)
        } else {
            p
        },
        None => p,
    }
}

/// The end of the grapheme cluster that starts at `offset`: a character with
/// the zero-width characters behind it, a joiner binding the next one too.
pub fn next_grapheme_offset<B: VimBuffer>(buf: &B, offset: usize) -> (r: Option<usize>)
    ensures
        r is Some == buf.doc().char_at(offset as int) is Some,
        r matches Some(v) ==> v == cluster_end(buf.doc(), buf.doc().next(offset as int)->0) && offset
            < v <= buf.doc().len(),
{
    let ghost d = buf.doc();
    proof {
        buf.doc_wf();
        d.lemma_char_fits(offset as int);
    }
    let first = match buf.next_char_offset(offset) {
        Some(n) => n,
        None => {
            return None;
        },
    };
    let mut n: usize = first;
    loop
        invariant
            d == buf.doc(),
            d.wf(),
            first <= n <= d.len(),
            cluster_end(d, n as int) == cluster_end(d, first as int),
        ensures
            first <= n <= d.len(),
            n == cluster_end(d, first as int),
        decreases d.len() - n,
    {
        proof {
            d.lemma_char_fits(n as int);
        }
        let c = match buf.char_at(n) {
            Some(c) => c,
            None => {
                break;
            },
        };
        if char_display_width(c) != 0 {
            break;
        }
        let m = n + char_len(c);
        proof {
            d.lemma_char_fits(m as int);
        }
        if c == ZERO_WIDTH_JOINER {
            match buf.char_at(m) {
                Some(joined) => {
                    n = if joined == '\n' {
                        m
                    } else {
                        m + char_len(joined)
                    };
                },
                None => {
                    n = m;
                },
            }
        } else {
            n = m;
        }
    }
    Some(n)
}

/// The start of the grapheme cluster that ends at `offset`.
pub fn prev_grapheme_offset<B: VimBuffer>(buf: &B, offset: usize) -> (r: Option<usize>)
    ensures
        r is Some == buf.doc().prev(offset as int) is Some,
        r matches Some(v) ==> v == cluster_start(buf.doc(), buf.doc().prev(offset as int)->0) && v
            < offset,
{
    let ghost d = buf.doc();
    proof {
        buf.doc_wf();
    }
    let last = match buf.prev_char_offset(offset) {
        Some(p) => p,
        None => {
            return None;
        },
    };
    proof {
        d.lemma_prev(offset as int);
    }
    let mut p: usize = last;
    loop
        invariant
            d == buf.doc(),
            d.wf(),
            p <= last,
            cluster_start(d, p as int) == cluster_start(d, last as int),
        ensures
            p <= last,
            p == cluster_start(d, last as int),
        decreases p,
    {
        let q = match buf.prev_char_offset(p) {
            Some(q) => q,
            None => {
                break;
            },
        };
        proof {
            d.lemma_prev(p as int);
        }
        let joined = match buf.char_at(p) {
            Some(c) => char_display_width(c) == 0,
            None => false,
        };
        match buf.char_at(q) {
            Some(c) => {
                if c == '\n' || !(joined || c == ZERO_WIDTH_JOINER) {
                    break;
                }
            },
            None => {
                break;
            },
        }
        p = q;
    }
    Some(p)
}

} // verus!
