//! Where the motions land, with their counts, in terms of the text alone.
use crate::buffer::{
    at_column, cluster_end, cluster_start, column_in, display_width, joins_cluster,
    lemma_width_between_nonneg, width_between, VimBuffer,
};
use crate::cells::{char_fits, width};
use crate::chars::white;
use crate::doc::Doc;
use crate::doc_laws::{indent_is_the_blanks_in_front, spaced};
use crate::motion_laws::{
    paragraph_back_is_the_blank_line_above, paragraph_on_is_the_blank_line_below,
};
use crate::motions::{
    clusters_left, clusters_right, found, landing, last_non_blank, many_steps, one_step,
    percent_line, scroll_step, words_on, Motion, MotionKind,
};
use crate::object_laws::{lemma_scanned, lemma_scanned_back};
use crate::objects::leaves_blanks_back;
use crate::sentence_laws::{sentence_back_is_the_last_one, sentence_on_is_the_next_one};
use crate::state::{Cursor, Vim};
use crate::word::{
    at_char, back_a_word_goes_back, find_after, find_before, last_char_before, matching_bracket,
    next_word_is_no_newline, paragraph_after, paragraph_before, scan, scan_back, sentence_after,
    sentence_before, word_end_after, word_end_before, word_start_after, word_start_before,
};
use crate::word_laws::{word_end_back_is_the_last_one, word_end_is_the_next_one, word_stops};
use vstd::prelude::*;

verus! {

/// The cursor is on a character of the text or behind the last.
pub open spec fn in_text(v: Vim, d: Doc) -> bool {
    d.wf() && v.cursor.offset <= d.len() && d.at_boundary(v.cursor.offset as int)
}

/// The engine with the cursor elsewhere.
pub open spec fn with_cursor(v: Vim, o: usize) -> Vim {
    Vim { cursor: Cursor { offset: o, ..v.cursor }, ..v }
}

// ---- along the line ------------------------------------------------------------------

/// `0` goes to the start of the line. `$` goes to its last character, or stays
/// on an empty line.
pub proof fn the_ends_of_the_line<B: VimBuffer>(v: Vim, d: Doc, seen: (usize, usize), count: int)
    requires
        in_text(v, d),
    ensures
        ({
            let line = d.line_of(v.cursor.offset as int);
            let start = landing::<B>(v, d, seen, Motion::LineStart, count);
            let end = landing::<B>(v, d, seen, Motion::LineEnd, count);
            &&& start.moved && start.kind == MotionKind::Exclusive
            &&& start.offset == d.line_start(line)
            &&& end.moved && end.kind == MotionKind::Inclusive
            &&& d.line_start(line) == d.line_end(line) ==> end.offset == d.line_start(line)
            &&& d.line_start(line) < d.line_end(line) ==> d.line_start(line) <= end.offset
                && d.char_at(end.offset as int) is Some && end.offset + width(
                d.char_at(end.offset as int)->0,
            ) == d.line_end(line)
        }),
{
    reveal(landing);
    let line = d.line_of(v.cursor.offset as int);
    d.lemma_line_of(v.cursor.offset as int);
    d.lemma_line_bounds(line);
    let (from, to) = (d.line_start(line), d.line_end(line));
    if from < to {
        d.lemma_prev(to);
        let p = d.prev(to)->0;
        if p < from {
            assert(char_fits(d.cells, p));
            assert(d.cells[from] is None);
        }
    }
}

/// `^` goes to the first character of the line that is no space and no tab, or
/// to the line's end.
pub proof fn the_first_non_blank<B: VimBuffer>(v: Vim, d: Doc, seen: (usize, usize), count: int)
    requires
        in_text(v, d),
    ensures
        ({
            let line = d.line_of(v.cursor.offset as int);
            let r = landing::<B>(v, d, seen, Motion::FirstNonBlank, count);
            let blank = |k: int| d.char_at(k) == Some(' ') || d.char_at(k) == Some('\t');
            &&& r.moved && r.kind == MotionKind::Exclusive
            &&& d.line_start(line) <= r.offset <= d.line_end(line)
            &&& r.offset < d.line_end(line) ==> !blank(r.offset as int)
            &&& forall|k: int| d.line_start(line) <= k < r.offset ==> #[trigger] blank(k)
        }),
{
    reveal(landing);
    let line = d.line_of(v.cursor.offset as int);
    d.lemma_line_of(v.cursor.offset as int);
    d.lemma_line_bounds(line);
    indent_is_the_blanks_in_front(d, line);
    assert forall|k: int| d.line_start(line) <= k < d.first_non_blank(line) implies (d.char_at(k)
        == Some(' ') || d.char_at(k) == Some('\t')) by {
        assert(spaced(d, k));
    }
}

/// `{count}g_` goes to the last character that is not white space, `count - 1`
/// lines down; to the start of that line when it has none.
pub proof fn the_last_non_blank<B: VimBuffer>(v: Vim, d: Doc, seen: (usize, usize), count: int)
    requires
        in_text(v, d),
        count >= 1,
    ensures
        ({
            let below = d.line_of(v.cursor.offset as int) + count - 1;
            let line = if below < d.line_count() {
                below
            } else {
                d.line_count() - 1
            };
            let r = landing::<B>(v, d, seen, Motion::LastLineNonBlank, count);
            let p = r.offset as int;
            let white_at = |k: int| d.char_at(k) matches Some(c) && white(c);
            &&& r.moved && r.kind == MotionKind::Inclusive
            &&& d.line_start(line) <= p <= d.line_end(line)
            &&& d.line_start(line) < p ==> d.char_at(p) is Some && !white_at(p)
            &&& forall|k: int|
                p < k < d.line_end(line) && #[trigger] d.char_at(k) is Some ==> white_at(k)
        }),
{
    reveal(landing);
    let o = v.cursor.offset as int;
    d.lemma_line_of(o);
    let below = d.line_of(o) + count - 1;
    let line = if below < d.line_count() {
        below
    } else {
        d.line_count() - 1
    };
    d.lemma_line_bounds(line);
    let (from, to) = (d.line_start(line), d.line_end(line));
    let stop = leaves_blanks_back(d, from);
    lemma_scanned_back(d, to, stop);
    let b = scan_back(d, to, stop);
    let p = last_non_blank(d, line);
    if b > from {
        d.lemma_prev(b);
        let q = d.prev(b)->0;
        if q < from {
            assert(char_fits(d.cells, q));
            assert(d.cells[from] is None);
        }
        assert(stop(q));
        assert(char_fits(d.cells, q));
    }
    assert forall|k: int| p < k < to && #[trigger] d.char_at(k) is Some implies (d.char_at(
        k,
    ) matches Some(c) && white(c)) by {
        if k >= b {
            assert(!stop(k));
        }
    }
}

// ---- columns ---------------------------------------------------------------------------

proof fn lemma_column_in_line(d: Doc, o: int, end: int, left: int)
    requires
        d.wf(),
        0 <= o <= end <= d.len(),
        d.at_boundary(o),
        d.at_boundary(end),
        left >= 0,
    ensures
        ({
            let p = column_in(d, o, end, left);
            &&& o <= p <= end
            &&& d.at_boundary(p)
            &&& width_between(d, o, p) <= left
            &&& p < end ==> left < width_between(d, o, p) + display_width(d.char_at(p)->0)
        }),
    decreases end - o,
{
    d.lemma_char_fits(o);
    if o < end {
        let c = d.char_at(o)->0;
        if display_width(c) <= left {
            if o + width(c) > end {
                assert(char_fits(d.cells, o));
                assert(d.cells[end] is None);
            }
            lemma_column_in_line(d, o + width(c), end, left - display_width(c));
        }
    }
}

/// `{count}|` goes to the character of the line that covers column `count`, the
/// first one being 1, and to the line's end when the line is not so long.
pub proof fn the_column<B: VimBuffer>(v: Vim, d: Doc, seen: (usize, usize), count: int)
    requires
        in_text(v, d),
        count >= 1,
    ensures
        ({
            let line = d.line_of(v.cursor.offset as int);
            let from = d.line_start(line);
            let r = landing::<B>(v, d, seen, Motion::Column, count);
            let p = r.offset as int;
            &&& r.moved && r.kind == MotionKind::Exclusive
            &&& from <= p <= d.line_end(line)
            &&& width_between(d, from, p) < count
            &&& p < d.line_end(line) ==> count <= width_between(d, from, p) + display_width(
                d.char_at(p)->0,
            )
        }),
{
    reveal(landing);
    let line = d.line_of(v.cursor.offset as int);
    d.lemma_line_of(v.cursor.offset as int);
    d.lemma_line_bounds(line);
    lemma_column_in_line(d, d.line_start(line), d.line_end(line), count - 1);
}

// ---- up and down -----------------------------------------------------------------------

/// `{count}j` and `{count}k` go `count` lines down or up, as far as there are
/// lines, to the character that covers the column they keep to. They fail when
/// there is no line to go to.
pub proof fn lines_up_and_down<B: VimBuffer>(v: Vim, d: Doc, seen: (usize, usize), count: int)
    requires
        in_text(v, d),
        count >= 1,
        v.column(d) >= 0,
    ensures
        ({
            let line = d.line_of(v.cursor.offset as int);
            let down = landing::<B>(v, d, seen, Motion::Down, count);
            let up = landing::<B>(v, d, seen, Motion::Up, count);
            &&& down.moved == (line + 1 < d.line_count())
            &&& up.moved == (line > 0)
            &&& down.moved ==> down.kind == MotionKind::Linewise && in_column(
                d,
                down.offset as int,
                if line + count < d.line_count() {
                    line + count
                } else {
                    d.line_count() - 1
                },
                v.column(d),
            )
            &&& up.moved ==> up.kind == MotionKind::Linewise && in_column(
                d,
                up.offset as int,
                if count <= line {
                    line - count
                } else {
                    0
                },
                v.column(d),
            )
            &&& !down.moved ==> down.offset == v.cursor.offset
            &&& !up.moved ==> up.offset == v.cursor.offset
        }),
{
    reveal(landing);
    let line = d.line_of(v.cursor.offset as int);
    d.lemma_line_of(v.cursor.offset as int);
    let low = if line + count < d.line_count() {
        line + count
    } else {
        d.line_count() - 1
    };
    let high = if count <= line {
        line - count
    } else {
        0
    };
    d.lemma_line_bounds(low);
    d.lemma_line_bounds(high);
    lemma_column_in_line(d, d.line_start(low), d.line_end(low), v.column(d));
    lemma_column_in_line(d, d.line_start(high), d.line_end(high), v.column(d));
}

/// `p` is where line `i` covers the column `col`, or the line's end.
pub open spec fn in_column(d: Doc, p: int, i: int, col: int) -> bool {
    &&& d.line_start(i) <= p <= d.line_end(i)
    &&& width_between(d, d.line_start(i), p) <= col
    &&& p < d.line_end(i) ==> col < width_between(d, d.line_start(i), p) + display_width(
        d.char_at(p)->0,
    )
}

/// The column that vertical motions keep to: the one that is remembered, else
/// that of the cursor.
pub proof fn the_column_kept(v: Vim, d: Doc)
    requires
        in_text(v, d),
    ensures
        v.cursor.desired_col matches Some(col) ==> v.column(d) == col,
        v.cursor.desired_col is None && width_between(
            d,
            d.line_start(d.line_of(v.cursor.offset as int)),
            v.cursor.offset as int,
        ) <= usize::MAX ==> v.column(d) == width_between(
            d,
            d.line_start(d.line_of(v.cursor.offset as int)),
            v.cursor.offset as int,
        ),
        v.column(d) >= 0,
{
    lemma_width_between_nonneg(
        d,
        d.line_start(d.line_of(v.cursor.offset as int)),
        v.cursor.offset as int,
    );
}

/// `+` and `-` go `count` lines down or up, as far as there are lines, to the
/// first character that is not blank.
pub proof fn lines_to_the_first_non_blank<B: VimBuffer>(
    v: Vim,
    d: Doc,
    seen: (usize, usize),
    count: int,
)
    requires
        in_text(v, d),
        count >= 1,
    ensures
        ({
            let line = d.line_of(v.cursor.offset as int);
            let down = landing::<B>(v, d, seen, Motion::LineDownFirstNonBlank, count);
            let up = landing::<B>(v, d, seen, Motion::LineUpFirstNonBlank, count);
            &&& down.moved && down.kind == MotionKind::Linewise
            &&& up.moved && up.kind == MotionKind::Linewise
            &&& down.offset == d.first_non_blank(
                if line + count < d.line_count() {
                    line + count
                } else {
                    d.line_count() - 1
                },
            )
            &&& up.offset == d.first_non_blank(
                if count <= line {
                    line - count
                } else {
                    0
                },
            )
        }),
{
    reveal(landing);
    let line = d.line_of(v.cursor.offset as int);
    d.lemma_line_of(v.cursor.offset as int);
    let low = if line + count < d.line_count() {
        line + count
    } else {
        d.line_count() - 1
    };
    let high = if count <= line {
        line - count
    } else {
        0
    };
    d.lemma_line_bounds(low);
    d.lemma_line_bounds(high);
    d.lemma_first_non_blank(low);
    d.lemma_first_non_blank(high);
}

/// `gg` and `G` without a count go to the first and the last line, with a count
/// above one to that line, or to the last when there are not so many.
pub proof fn the_counted_line<B: VimBuffer>(v: Vim, d: Doc, seen: (usize, usize), count: int)
    requires
        in_text(v, d),
        count >= 1,
    ensures
        ({
            let top = landing::<B>(v, d, seen, Motion::GoToLine { first: true }, count);
            let end = landing::<B>(v, d, seen, Motion::GoToLine { first: false }, count);
            &&& top.moved && top.kind == MotionKind::Linewise
            &&& end.moved && end.kind == MotionKind::Linewise
            &&& count == 1 ==> top.offset == 0 && end.offset == d.line_start(d.line_count() - 1)
            &&& 1 < count <= d.line_count() ==> top.offset == d.line_start(count - 1) && end.offset
                == d.line_start(count - 1)
            &&& count > 1 && count > d.line_count() ==> top.offset == d.line_start(
                d.line_count() - 1,
            ) && end.offset == d.line_start(d.line_count() - 1)
        }),
{
    reveal(landing);
    d.lemma_line_bounds(d.line_count() - 1);
    d.lemma_line_bounds(0);
    if count <= d.line_count() {
        d.lemma_line_bounds(count - 1);
    }
}

/// `{count}%` goes to the first line that at least `count` hundredths of the
/// lines lie at or above; beyond a hundred it fails.
pub proof fn the_hundredth_line<B: VimBuffer>(v: Vim, d: Doc, seen: (usize, usize), count: int) -> (
    i: int)
    requires
        in_text(v, d),
        count >= 1,
    ensures
        ({
            let r = landing::<B>(v, d, seen, Motion::FilePercent, count);
            &&& r.moved == (count <= 100)
            &&& r.moved ==> {
                &&& r.kind == MotionKind::Linewise
                &&& 0 <= i < d.line_count()
                &&& r.offset == d.line_start(i)
                &&& 100 * (i + 1) >= count * d.line_count()
                &&& 100 * i < count * d.line_count()
            }
        }),
{
    reveal(landing);
    let n = d.line_count();
    let i = percent_line(d, count);
    if count <= 100 {
        assert(count * n >= 1) by (nonlinear_arith)
            requires
                count >= 1,
                n >= 1,
        ;
        assert(count * n <= 100 * n) by (nonlinear_arith)
            requires
                count <= 100,
                n >= 1,
        ;
        d.lemma_line_bounds(i);
    }
    i
}

/// `H` and `L` go to the first and the last line that is seen, or `count - 1`
/// lines from there towards the other one, `M` to the line in the middle; never
/// behind the last line of the text.
pub proof fn the_screen_lines<B: VimBuffer>(v: Vim, d: Doc, first: usize, last: usize, count: int)
    requires
        in_text(v, d),
        count >= 1,
        first <= last < d.line_count(),
    ensures
        ({
            let top = landing::<B>(v, d, (first, last), Motion::ScreenTop, count);
            let middle = landing::<B>(v, d, (first, last), Motion::ScreenMiddle, count);
            let bottom = landing::<B>(v, d, (first, last), Motion::ScreenBottom, count);
            &&& top.moved && middle.moved && bottom.moved
            &&& top.kind == MotionKind::Linewise && middle.kind == MotionKind::Linewise
                && bottom.kind == MotionKind::Linewise
            &&& top.offset == d.line_start(
                if first + count - 1 <= last {
                    first + count - 1
                } else {
                    last as int
                },
            )
            &&& bottom.offset == d.line_start(
                if last - (count - 1) >= first {
                    last - (count - 1)
                } else {
                    first as int
                },
            )
            &&& middle.offset == d.line_start((first + last) / 2)
        }),
{
    reveal(landing);
    d.lemma_line_bounds(first as int);
    d.lemma_line_bounds(last as int);
    d.lemma_line_bounds((first + last) / 2);
    if first + count - 1 <= last {
        d.lemma_line_bounds(first + count - 1);
        d.lemma_line_bounds(last - (count - 1));
    }
}

/// The line `n`, as far as there are lines.
pub open spec fn nearest_line(d: Doc, n: int) -> int {
    if n < 0 {
        0
    } else if n < d.line_count() {
        n
    } else {
        d.line_count() - 1
    }
}

/// A page is as many lines as are seen and half a page half of that, one line
/// being seen at least; a scroll motion goes so many lines down or up, as far as
/// there are lines, and keeps to the column.
pub proof fn pages_and_half_pages<B: VimBuffer>(v: Vim, d: Doc, first: usize, last: usize, count: int)
    requires
        in_text(v, d),
        first <= last,
        v.column(d) >= 0,
    ensures
        ({
            let line = d.line_of(v.cursor.offset as int);
            let page = if first < last {
                last - first
            } else {
                1
            };
            &&& scrolls::<B>(v, d, (first, last), Motion::PageDown, count, line + page)
            &&& scrolls::<B>(v, d, (first, last), Motion::PageUp, count, line - page)
            &&& scrolls::<B>(v, d, (first, last), Motion::ScrollHalfDown, count, line + page / 2)
            &&& scrolls::<B>(v, d, (first, last), Motion::ScrollHalfUp, count, line - page / 2)
        }),
{
    let line = d.line_of(v.cursor.offset as int);
    d.lemma_line_of(v.cursor.offset as int);
    let page = if first < last {
        last - first
    } else {
        1
    };
    lemma_scrolls::<B>(v, d, (first, last), Motion::PageDown, count, line + page);
    lemma_scrolls::<B>(v, d, (first, last), Motion::PageUp, count, line - page);
    lemma_scrolls::<B>(v, d, (first, last), Motion::ScrollHalfDown, count, line + page / 2);
    lemma_scrolls::<B>(v, d, (first, last), Motion::ScrollHalfUp, count, line - page / 2);
}

/// A motion goes to the line nearest to `n`, where that covers the column.
pub open spec fn scrolls<B: VimBuffer>(
    v: Vim,
    d: Doc,
    seen: (usize, usize),
    m: Motion,
    count: int,
    n: int,
) -> bool {
    let r = landing::<B>(v, d, seen, m, count);
    r.moved && r.kind == MotionKind::Linewise && in_column(
        d,
        r.offset as int,
        nearest_line(d, n),
        v.column(d),
    )
}

proof fn lemma_scrolls<B: VimBuffer>(
    v: Vim,
    d: Doc,
    seen: (usize, usize),
    m: Motion,
    count: int,
    n: int,
)
    requires
        in_text(v, d),
        v.column(d) >= 0,
        ({
            let line = d.line_of(v.cursor.offset as int);
            let step = scroll_step(seen, m);
            ((m is PageDown || m is ScrollHalfDown) && n == line + step) || ((m is PageUp
                || m is ScrollHalfUp) && n == line - step)
        }),
    ensures
        scrolls::<B>(v, d, seen, m, count, n),
{
    let line = d.line_of(v.cursor.offset as int);
    d.lemma_line_of(v.cursor.offset as int);
    lemma_in_column(d, nearest_line(d, n), v.column(d));
    reveal(landing);
}

pub proof fn lemma_in_column(d: Doc, i: int, col: int)
    requires
        d.wf(),
        0 <= i < d.line_count(),
        col >= 0,
    ensures
        in_column(d, at_column(d, i, col), i, col),
        0 <= at_column(d, i, col) <= d.len(),
{
    d.lemma_line_bounds(i);
    lemma_column_in_line(d, d.line_start(i), d.line_end(i), col);
}

// ---- characters ------------------------------------------------------------------------

/// How many characters start in `[a, b)`.
pub open spec fn chars_between(d: Doc, a: int, b: int) -> int
    decreases b - a,
{
    if a >= b {
        0
    } else {
        chars_between(d, a + 1, b) + if d.char_at(a) is Some {
            1int
        } else {
            0
        }
    }
}

proof fn lemma_no_chars(d: Doc, a: int, b: int)
    requires
        a <= b,
        forall|k: int| a <= k < b ==> #[trigger] d.char_at(k) is None,
    ensures
        chars_between(d, a, b) == 0,
    decreases b - a,
{
    if a < b {
        assert(d.char_at(a) is None);
        lemma_no_chars(d, a + 1, b);
    }
}

pub proof fn lemma_chars_split(d: Doc, a: int, m: int, b: int)
    requires
        a <= m <= b,
    ensures
        chars_between(d, a, b) == chars_between(d, a, m) + chars_between(d, m, b),
        chars_between(d, a, m) >= 0,
    decreases m - a,
{
    if a < m {
        lemma_chars_split(d, a + 1, m, b);
    }
}

pub proof fn lemma_one_char(d: Doc, o: int)
    requires
        d.wf(),
        d.char_at(o) is Some,
    ensures
        chars_between(d, o, o + width(d.char_at(o)->0)) == 1,
        d.next(o) == Some(o + width(d.char_at(o)->0)),
{
    d.lemma_char_fits(o);
    let n = o + width(d.char_at(o)->0);
    assert(char_fits(d.cells, o));
    assert forall|k: int| o + 1 <= k < n implies #[trigger] d.char_at(k) is None by {}
    lemma_no_chars(d, o + 1, n);
}

/// No character of the text joins the one before it.
pub open spec fn no_joining(d: Doc) -> bool {
    forall|k: int|
        0 <= k < d.len() && #[trigger] d.cells[k] is Some ==> display_width(d.cells[k]->0) > 0
            && d.cells[k] != Some('\u{200D}')
}

proof fn lemma_no_cluster(d: Doc, o: int)
    requires
        d.wf(),
        no_joining(d),
    ensures
        0 <= o <= d.len() ==> cluster_end(d, o) == o,
        cluster_start(d, o) == o,
{
    d.lemma_char_fits(o);
    if 0 <= o < d.len() && d.char_at(o) is Some {
        assert(d.cells[o] is Some);
        assert(!joins_cluster(d, o));
    }
    if 0 < o <= d.len() && d.at_boundary(o) {
        d.lemma_prev(o);
        assert(d.cells[d.prev(o)->0] is Some);
    }
}

proof fn lemma_left(d: Doc, o: int, n: int)
    requires
        d.wf(),
        no_joining(d),
        d.at_boundary(o),
        0 <= o <= d.len(),
        n >= 0,
    ensures
        ({
            let p = clusters_left(d, o, n);
            let from = d.line_start(d.line_of(o));
            &&& from <= p <= o
            &&& d.at_boundary(p)
            &&& chars_between(d, p, o) <= n
            &&& p > from ==> chars_between(d, p, o) == n
        }),
    decreases n,
{
    let line = d.line_of(o);
    let from = d.line_start(line);
    d.lemma_line_of(o);
    d.lemma_line_bounds(line);
    if n > 0 && o > 0 {
        d.lemma_prev(o);
        let p = d.prev(o)->0;
        lemma_no_cluster(d, p);
        if p >= from {
            d.lemma_line_of_unique(p, line);
            lemma_left(d, p, n - 1);
            let r = clusters_left(d, p, n - 1);
            lemma_one_char(d, p);
            lemma_chars_split(d, r, p, o);
        } else if o > from {
            assert(char_fits(d.cells, p));
            assert(d.cells[from] is None);
        }
    }
}

proof fn lemma_right(d: Doc, o: int, n: int)
    requires
        d.wf(),
        no_joining(d),
        d.at_boundary(o),
        0 <= o <= d.line_end(d.line_of(o)),
        n >= 0,
    ensures
        ({
            let p = clusters_right(d, o, n);
            let end = d.line_end(d.line_of(o));
            &&& o <= p <= end
            &&& d.at_boundary(p)
            &&& chars_between(d, o, p) <= n
            &&& o < end ==> p < end
            &&& o < end && chars_between(d, o, p) < n ==> p + width(d.char_at(p)->0) == end
        }),
    decreases n,
{
    let line = d.line_of(o);
    let end = d.line_end(line);
    d.lemma_line_of(o);
    d.lemma_line_bounds(line);
    if n > 0 && o < end {
        d.lemma_char_fits(o);
        let next = d.next(o)->0;
        lemma_no_cluster(d, next);
        assert(next <= end) by {
            if next > end {
                assert(char_fits(d.cells, o));
                assert(d.cells[end] is None);
            }
        }
        if next < end {
            d.lemma_line_of_unique(next, line);
            lemma_right(d, next, n - 1);
            let r = clusters_right(d, next, n - 1);
            lemma_one_char(d, o);
            lemma_chars_split(d, o, next, r);
        }
    }
}

/// `{count}h` goes `count` characters to the left, as far as the line has them,
/// and fails at its start. `{count}l` goes `count` to the right, as far as the
/// last character of the line, and fails there.
pub proof fn characters_left_and_right<B: VimBuffer>(
    v: Vim,
    d: Doc,
    seen: (usize, usize),
    count: int,
)
    requires
        in_text(v, d),
        no_joining(d),
        v.cursor.offset <= d.line_end(d.line_of(v.cursor.offset as int)),
        count >= 1,
    ensures
        ({
            let o = v.cursor.offset as int;
            let line = d.line_of(o);
            let (from, end) = (d.line_start(line), d.line_end(line));
            let l = landing::<B>(v, d, seen, Motion::Left, count);
            let r = landing::<B>(v, d, seen, Motion::Right, count);
            &&& l.moved == (o > from)
            &&& from <= l.offset <= o
            &&& chars_between(d, l.offset as int, o) <= count
            &&& l.offset > from ==> chars_between(d, l.offset as int, o) == count
            &&& r.moved == (o < end && o + width(d.char_at(o)->0) < end)
            &&& o <= r.offset <= end
            &&& o < end ==> r.offset < end
            &&& chars_between(d, o, r.offset as int) <= count
            &&& o < end && chars_between(d, o, r.offset as int) < count ==> r.offset + width(
                d.char_at(r.offset as int)->0,
            ) == end
            &&& l.moved ==> l.kind == MotionKind::Exclusive
            &&& r.moved ==> r.kind == MotionKind::Exclusive
        }),
{
    reveal(landing);
    let o = v.cursor.offset as int;
    let line = d.line_of(o);
    d.lemma_line_of(o);
    d.lemma_line_bounds(line);
    lemma_left(d, o, count);
    lemma_right(d, o, count);
    let (from, end) = (d.line_start(line), d.line_end(line));
    let r = clusters_right(d, o, count);
    let l = clusters_left(d, o, count);
    if r == o && o < end {
        assert(chars_between(d, o, r) == 0);
    }
    if r > o {
        d.lemma_char_fits(o);
        let n = o + width(d.char_at(o)->0);
        if n >= end {
            assert(char_fits(d.cells, o));
            assert(d.at_boundary(r));
            assert(d.cells[r] is Some);
        }
    }
    if l == o && o > from {
        assert(chars_between(d, l, o) == 0);
    }
}

// ---- finding a character -----------------------------------------------------------------

/// How many times `c` starts in `[a, b)`.
pub open spec fn times_between(d: Doc, a: int, b: int, c: char) -> int
    decreases b - a,
{
    if a >= b {
        0
    } else {
        times_between(d, a + 1, b, c) + if d.char_at(a) == Some(c) {
            1int
        } else {
            0
        }
    }
}

proof fn lemma_times_none(d: Doc, a: int, b: int, c: char)
    requires
        a <= b,
        forall|k: int| a <= k < b ==> #[trigger] d.char_at(k) != Some(c),
    ensures
        times_between(d, a, b, c) == 0,
    decreases b - a,
{
    if a < b {
        assert(d.char_at(a) != Some(c));
        lemma_times_none(d, a + 1, b, c);
    }
}

proof fn lemma_times_split(d: Doc, a: int, m: int, b: int, c: char)
    requires
        a <= m <= b,
    ensures
        times_between(d, a, b, c) == times_between(d, a, m, c) + times_between(d, m, b, c),
        times_between(d, a, m, c) >= 0,
        times_between(d, m, b, c) >= 0,
    decreases m - a,
{
    lemma_times_counted(d, m, b, c);
    if a < m {
        lemma_times_split(d, a + 1, m, b, c);
    }
}

proof fn lemma_times_counted(d: Doc, a: int, b: int, c: char)
    ensures
        times_between(d, a, b, c) >= 0,
    decreases b - a,
{
    if a < b {
        lemma_times_counted(d, a + 1, b, c);
    }
}

/// The next `c` behind `o` on its line, and the last one before it.
pub proof fn lemma_nearest(d: Doc, o: int, c: char)
    requires
        d.wf(),
        d.at_boundary(o),
        0 <= o <= d.line_end(d.line_of(o)),
    ensures
        ({
            let line = d.line_of(o);
            let (from, end) = (d.line_start(line), d.line_end(line));
            &&& match find_after(d, o, c, false) {
                Some(p) => o < p < end && d.char_at(p) == Some(c) && forall|k: int|
                    o < k < p ==> #[trigger] d.char_at(k) != Some(c),
                None => forall|k: int| o < k < end ==> #[trigger] d.char_at(k) != Some(c),
            }
            &&& match find_before(d, o, c, false) {
                Some(p) => from <= p < o && d.char_at(p) == Some(c) && forall|k: int|
                    p < k < o ==> #[trigger] d.char_at(k) != Some(c),
                None => forall|k: int| from <= k < o ==> #[trigger] d.char_at(k) != Some(c),
            }
        }),
{
    let line = d.line_of(o);
    let (from, end) = (d.line_start(line), d.line_end(line));
    d.lemma_line_of(o);
    d.lemma_line_bounds(line);
    d.lemma_char_fits(o);
    let n = match d.next(o) {
        Some(n) => n,
        None => o,
    };
    let stop = at_char(d, end, c);
    lemma_scanned(d, n, stop);
    let hit = scan(d, n, stop);
    assert forall|k: int| o < k < hit && k < end implies #[trigger] d.char_at(k) != Some(c) by {
        if k < n {
            assert(char_fits(d.cells, o));
        } else if d.char_at(k) is Some {
            assert(!stop(k));
        }
    }
    if hit < end {
        assert(stop(hit));
    }
    if o == end {
        assert(n >= end);
    }
    lemma_last_before(d, o, from, c);
}

proof fn lemma_last_before(d: Doc, o: int, from: int, c: char)
    requires
        d.wf(),
        d.at_boundary(o),
        d.at_boundary(from),
        0 <= from <= o <= d.len(),
    ensures
        match last_char_before(d, o, from, c) {
            Some(p) => from <= p < o && d.char_at(p) == Some(c) && forall|k: int|
                p < k < o ==> #[trigger] d.char_at(k) != Some(c),
            None => forall|k: int| from <= k < o ==> #[trigger] d.char_at(k) != Some(c),
        },
    decreases o,
{
    if o > from {
        d.lemma_prev(o);
        let p = d.prev(o)->0;
        assert(char_fits(d.cells, p));
        assert(p >= from) by {
            if p < from {
                assert(d.cells[from] is None);
            }
        }
        lemma_last_before(d, p, from, c);
        assert forall|k: int| p < k < o implies #[trigger] d.char_at(k) != Some(c) by {
            assert(d.char_at(k) is None);
        }
    }
}

proof fn lemma_found(d: Doc, o: int, c: char, forward: bool, n: int)
    requires
        d.wf(),
        d.at_boundary(o),
        0 <= o <= d.line_end(d.line_of(o)),
        n >= 0,
    ensures
        ({
            let line = d.line_of(o);
            let (from, end) = (d.line_start(line), d.line_end(line));
            match found(d, o, c, forward, false, n) {
                Some(p) => {
                    &&& n > 0 ==> d.char_at(p) == Some(c)
                    &&& forward ==> o <= p <= end && times_between(d, o + 1, p + 1, c) == n
                    &&& !forward ==> from <= p <= o && times_between(d, p, o, c) == n
                },
                None => {
                    &&& forward ==> times_between(d, o + 1, end, c) < n
                    &&& !forward ==> times_between(d, from, o, c) < n
                },
            }
        }),
    decreases n,
{
    let line = d.line_of(o);
    let (from, end) = (d.line_start(line), d.line_end(line));
    d.lemma_line_of(o);
    d.lemma_line_bounds(line);
    if n > 0 {
        lemma_nearest(d, o, c);
        if forward {
            match find_after(d, o, c, false) {
                Some(h) => {
                    d.lemma_char_fits(h);
                    d.lemma_line_of_unique(h, line);
                    lemma_found(d, h, c, forward, n - 1);
                    lemma_times_none(d, o + 1, h, c);
                    lemma_times_split(d, o + 1, h, h + 1, c);
                    assert(times_between(d, h + 1, h + 1, c) == 0);
                    assert(times_between(d, o + 1, h + 1, c) == 1);
                    match found(d, h, c, forward, false, n - 1) {
                        Some(p) => {
                            lemma_times_split(d, o + 1, h + 1, p + 1, c);
                        },
                        None => {
                            lemma_times_split(d, o + 1, h + 1, end, c);
                        },
                    }
                },
                None => {
                    if o < end {
                        lemma_times_none(d, o + 1, end, c);
                    }
                },
            }
        } else {
            match find_before(d, o, c, false) {
                Some(h) => {
                    d.lemma_char_fits(h);
                    d.lemma_line_of_unique(h, line);
                    lemma_found(d, h, c, forward, n - 1);
                    lemma_times_none(d, h + 1, o, c);
                    assert(times_between(d, h, o, c) == 1);
                    match found(d, h, c, forward, false, n - 1) {
                        Some(p) => {
                            lemma_times_split(d, p, h, o, c);
                        },
                        None => {
                            lemma_times_split(d, from, h, o, c);
                        },
                    }
                },
                None => {
                    lemma_times_none(d, from, o, c);
                },
            }
        }
    } else {
        assert(times_between(d, o + 1, o + 1, c) == 0);
    }
}

/// `{count}f` goes to the `count`-th such character behind the cursor on its
/// line and `{count}F` to the `count`-th before it; they fail when there are not
/// so many.
pub proof fn the_counted_character<B: VimBuffer>(
    v: Vim,
    d: Doc,
    seen: (usize, usize),
    c: char,
    count: int,
)
    requires
        in_text(v, d),
        v.cursor.offset <= d.line_end(d.line_of(v.cursor.offset as int)),
        v.last_find matches Some(f) && f.0 == c,
        count >= 1,
    ensures
        ({
            let o = v.cursor.offset as int;
            let line = d.line_of(o);
            let (from, end) = (d.line_start(line), d.line_end(line));
            let on = landing::<B>(
                v,
                d,
                seen,
                Motion::FindChar { forward: true, till: false },
                count,
            );
            let back = landing::<B>(
                v,
                d,
                seen,
                Motion::FindChar { forward: false, till: false },
                count,
            );
            &&& on.moved == (times_between(d, o + 1, end, c) >= count)
            &&& on.moved ==> on.kind == MotionKind::Inclusive && o < on.offset < end && d.char_at(
                on.offset as int,
            ) == Some(c) && times_between(d, o + 1, on.offset + 1, c) == count
            &&& !on.moved ==> on.offset == o
            &&& back.moved == (times_between(d, from, o, c) >= count)
            &&& back.moved ==> back.kind == MotionKind::Inclusive && from <= back.offset < o
                && d.char_at(back.offset as int) == Some(c) && times_between(
                d,
                back.offset as int,
                o,
                c,
            ) == count
            &&& !back.moved ==> back.offset == o
        }),
{
    reveal(landing);
    let o = v.cursor.offset as int;
    let line = d.line_of(o);
    let (from, end) = (d.line_start(line), d.line_end(line));
    d.lemma_line_of(o);
    d.lemma_line_bounds(line);
    lemma_found(d, o, c, true, count);
    lemma_found(d, o, c, false, count);
    match found(d, o, c, true, false, count) {
        Some(p) => {
            assert(p > o) by {
                if p == o {
                    assert(times_between(d, o + 1, o + 1, c) == 0);
                }
            }
            assert(p < end) by {
                if p >= end {
                    lemma_found_below(d, o, c, count);
                }
            }
            lemma_times_split(d, o + 1, p + 1, end, c);
        },
        None => {},
    }
    match found(d, o, c, false, false, count) {
        Some(p) => {
            lemma_times_split(d, from, p, o, c);
        },
        None => {},
    }
}

proof fn lemma_found_below(d: Doc, o: int, c: char, n: int)
    requires
        d.wf(),
        d.at_boundary(o),
        0 <= o <= d.line_end(d.line_of(o)),
        n >= 1,
    ensures
        found(d, o, c, true, false, n) matches Some(p) ==> p < d.line_end(d.line_of(o)),
    decreases n,
{
    lemma_nearest(d, o, c);
    let line = d.line_of(o);
    d.lemma_line_of(o);
    d.lemma_line_bounds(line);
    if let Some(h) = find_after(d, o, c, false) {
        d.lemma_char_fits(h);
        d.lemma_line_of_unique(h, line);
        if n > 1 {
            lemma_found_below(d, h, c, n - 1);
        }
    }
}

/// `t` goes to the character right before where `f` goes, and `T` to the one
/// right behind where `F` goes.
pub proof fn till_stops_short<B: VimBuffer>(v: Vim, d: Doc, seen: (usize, usize), c: char)
    requires
        in_text(v, d),
        v.cursor.offset <= d.line_end(d.line_of(v.cursor.offset as int)),
        v.last_find matches Some(f) && f.0 == c,
    ensures
        ({
            let o = v.cursor.offset as int;
            let end = d.line_end(d.line_of(o));
            let f = landing::<B>(v, d, seen, Motion::FindChar { forward: true, till: false }, 1);
            let t = landing::<B>(v, d, seen, Motion::FindChar { forward: true, till: true }, 1);
            let ff = landing::<B>(v, d, seen, Motion::FindChar { forward: false, till: false }, 1);
            let tt = landing::<B>(v, d, seen, Motion::FindChar { forward: false, till: true }, 1);
            &&& t.moved == f.moved
            &&& t.moved ==> t.kind == MotionKind::Exclusive && o <= t.offset && d.char_at(
                t.offset as int,
            ) is Some && t.offset + width(d.char_at(t.offset as int)->0) == f.offset
            &&& tt.moved ==> ff.moved && tt.kind == MotionKind::Exclusive && tt.offset
                == ff.offset + width(c) && tt.offset < end
            &&& ff.moved && ff.offset + width(c) < end ==> tt.moved
        }),
{
    reveal(landing);
    let o = v.cursor.offset as int;
    let line = d.line_of(o);
    d.lemma_line_of(o);
    d.lemma_line_bounds(line);
    lemma_nearest(d, o, c);
    assert(found(d, o, c, true, false, 1) == find_after(d, o, c, false)) by {
        if let Some(h) = find_after(d, o, c, false) {
            assert(found(d, h, c, true, false, 0) == Some(h));
        }
    }
    assert(found(d, o, c, true, true, 1) == find_after(d, o, c, true)) by {
        if let Some(h) = find_after(d, o, c, true) {
            assert(found(d, h, c, true, true, 0) == Some(h));
        }
    }
    assert(found(d, o, c, false, false, 1) == find_before(d, o, c, false)) by {
        if let Some(h) = find_before(d, o, c, false) {
            assert(found(d, h, c, false, false, 0) == Some(h));
        }
    }
    assert(found(d, o, c, false, true, 1) == find_before(d, o, c, true)) by {
        if let Some(h) = find_before(d, o, c, true) {
            assert(found(d, h, c, false, true, 0) == Some(h));
        }
    }
    if let Some(h) = find_after(d, o, c, false) {
        d.lemma_char_fits(h);
        d.lemma_prev(h);
        let p = d.prev(h)->0;
        if p < o {
            assert(char_fits(d.cells, p));
            assert(d.cells[o] is None);
        }
    }
    if let Some(h) = find_before(d, o, c, false) {
        d.lemma_char_fits(h);
    }
}

/// `;` repeats the last find in its direction and `,` against it.
pub proof fn finds_are_repeated<B: VimBuffer>(
    v: Vim,
    d: Doc,
    seen: (usize, usize),
    c: char,
    forward: bool,
    till: bool,
    count: int,
)
    requires
        v.last_find == Some((c, forward, till)),
    ensures
        landing::<B>(v, d, seen, Motion::RepeatFind { reverse: false }, count) == landing::<B>(
            v,
            d,
            seen,
            Motion::FindChar { forward, till },
            count,
        ),
        landing::<B>(v, d, seen, Motion::RepeatFind { reverse: true }, count) == landing::<B>(
            v,
            d,
            seen,
            Motion::FindChar { forward: !forward, till },
            count,
        ),
{
    reveal(landing);
}

// ---- counts ----------------------------------------------------------------------------

/// A motion over words, sentences or paragraphs goes to the next one of what it
/// goes over, and a count above one goes on from there.
pub proof fn a_count_goes_on_from_there<B: VimBuffer>(
    v: Vim,
    d: Doc,
    seen: (usize, usize),
    m: Motion,
    count: int,
)
    requires
        m is WordEnd || m is WordBack || m is WordEndBack || m is ParaNext || m is ParaPrev
            || m is SentenceNext || m is SentencePrev,
        count >= 1,
        in_text(v, d),
    ensures
        ({
            let o = v.cursor.offset as int;
            let once = landing::<B>(v, d, seen, m, 1).offset;
            &&& m == (Motion::WordEnd { big: false }) ==> once == word_end_after(d, o, false)
            &&& m == (Motion::WordEnd { big: true }) ==> once == word_end_after(d, o, true)
            &&& m == (Motion::WordBack { big: false }) ==> once == word_start_before(d, o, false)
            &&& m == (Motion::WordBack { big: true }) ==> once == word_start_before(d, o, true)
            &&& m == (Motion::WordEndBack { big: false }) ==> once == word_end_before(d, o, false)
            &&& m == (Motion::WordEndBack { big: true }) ==> once == word_end_before(d, o, true)
            &&& m is ParaNext ==> once == paragraph_after(d, o)
            &&& m is ParaPrev ==> once == paragraph_before(d, o)
            &&& m is SentenceNext ==> once == sentence_after(d, o)
            &&& m is SentencePrev ==> once == sentence_before(d, o)
            &&& landing::<B>(v, d, seen, m, count + 1).offset == landing::<B>(
                with_cursor(v, once),
                d,
                seen,
                m,
                count,
            ).offset
        }),
{
    reveal(landing);
    let o = v.cursor.offset as int;
    let next = one_step(d, o, m);
    lemma_step_in_text(d, o, m);
    assert(many_steps(d, o, m, 1) == next) by {
        assert(many_steps(d, next, m, 0) == next);
    }
    lemma_steps_in_text(d, o, m, count + 1);
    lemma_steps_in_text(d, next, m, count);
}

proof fn lemma_step_in_text(d: Doc, o: int, m: Motion)
    requires
        d.wf(),
        0 <= o <= d.len(),
        d.at_boundary(o),
    ensures
        0 <= one_step(d, o, m) <= d.len(),
        d.at_boundary(one_step(d, o, m)),
{
    match m {
        Motion::WordEnd { big } => {
            if o < d.len() {
                word_end_is_the_next_one(d, o, big);
                let p = word_end_after(d, o, big);
                if p < d.len() {
                    assert(word_stops(d, p, big));
                }
            } else {
                assert(d.char_at(o) is None);
            }
        },
        Motion::WordBack { big } => {
            back_a_word_goes_back(d, o, big);
        },
        Motion::WordEndBack { big } => {
            word_end_back_is_the_last_one(d, o, big);
        },
        Motion::ParaNext => {
            d.lemma_line_of(o);
            let p = paragraph_on_is_the_blank_line_below(d, o);
            d.lemma_line_bounds(p);
        },
        Motion::ParaPrev => {
            d.lemma_line_of(o);
            let p = paragraph_back_is_the_blank_line_above(d, o);
            d.lemma_line_bounds(p);
        },
        Motion::SentenceNext => {
            let t = sentence_on_is_the_next_one(d, o);
        },
        Motion::SentencePrev => {
            let t = sentence_back_is_the_last_one(d, o);
        },
        _ => {},
    }
}

proof fn lemma_steps_in_text(d: Doc, o: int, m: Motion, n: int)
    requires
        d.wf(),
        0 <= o <= d.len(),
        d.at_boundary(o),
    ensures
        0 <= many_steps(d, o, m, n) <= d.len(),
    decreases n,
{
    if n > 0 {
        lemma_step_in_text(d, o, m);
        lemma_steps_in_text(d, one_step(d, o, m), m, n - 1);
    }
}

/// `{count}w` goes on from where `w` goes, unless that is the end of the text.
pub proof fn words_are_counted<B: VimBuffer>(
    v: Vim,
    d: Doc,
    seen: (usize, usize),
    big: bool,
    count: int,
)
    requires
        in_text(v, d),
        count >= 1,
    ensures
        ({
            let o = v.cursor.offset as int;
            let once = landing::<B>(v, d, seen, Motion::WordStart { big }, 1);
            let more = landing::<B>(v, d, seen, Motion::WordStart { big }, count + 1);
            &&& once.moved && once.kind == MotionKind::Exclusive
            &&& once.offset == word_start_after(d, o, big)
            &&& once.offset < d.len() ==> more.offset == landing::<B>(
                with_cursor(v, once.offset),
                d,
                seen,
                Motion::WordStart { big },
                count,
            ).offset
            &&& once.offset == d.len() ==> more.offset == d.len()
        }),
{
    reveal(landing);
    let o = v.cursor.offset as int;
    next_word_is_no_newline(d, o, big);
    let next = word_start_after(d, o, big);
    assert(words_on(d, o, big, 1) == next) by {
        assert(words_on(d, next, big, 0) == next);
    }
}

// ---- marks and kinds ---------------------------------------------------------------------

/// A motion to a mark lands on it, or on the start of its line, and never behind
/// the text; it fails where no such mark is set.
pub proof fn a_motion_to_a_mark<B: VimBuffer>(
    v: Vim,
    d: Doc,
    seen: (usize, usize),
    name: char,
    count: int,
)
    requires
        in_text(v, d),
        v.char_arg == Some(name),
    ensures
        ({
            let exact = landing::<B>(v, d, seen, Motion::MarkJump { linewise: false }, count);
            let line = landing::<B>(v, d, seen, Motion::MarkJump { linewise: true }, count);
            match v.marks.resolved(name) {
                Some(o) => {
                    let at = if o <= d.len() {
                        o as int
                    } else {
                        d.len()
                    };
                    &&& exact.moved && exact.offset == at && exact.kind == MotionKind::Exclusive
                    &&& line.moved && line.offset == d.line_start(d.line_of(at)) && line.kind
                        == MotionKind::Linewise
                },
                None => !exact.moved && !line.moved,
            }
        }),
{
    reveal(landing);
    if let Some(o) = v.marks.resolved(name) {
        let at = if o <= d.len() {
            o as int
        } else {
            d.len()
        };
        d.lemma_line_of(at);
        d.lemma_line_bounds(d.line_of(at));
    }
}

/// `e`, `ge` and `%` take the character that they land on along with them, `w`,
/// `b` and the motions over sentences and paragraphs do not.
pub proof fn what_motions_take_along<B: VimBuffer>(
    v: Vim,
    d: Doc,
    seen: (usize, usize),
    big: bool,
    count: int,
)
    ensures
        ({
            let kind = |m: Motion| landing::<B>(v, d, seen, m, count).kind;
            let moved = |m: Motion| landing::<B>(v, d, seen, m, count).moved;
            &&& kind(Motion::WordEnd { big }) == MotionKind::Inclusive
            &&& moved(Motion::WordEndBack { big }) ==> kind(Motion::WordEndBack { big })
                == MotionKind::Inclusive
            &&& moved(Motion::MatchBracket) ==> kind(Motion::MatchBracket)
                == MotionKind::Inclusive
            &&& kind(Motion::WordStart { big }) == MotionKind::Exclusive
            &&& kind(Motion::WordBack { big }) == MotionKind::Exclusive
            &&& kind(Motion::ParaNext) == MotionKind::Exclusive
            &&& kind(Motion::ParaPrev) == MotionKind::Exclusive
            &&& kind(Motion::SentenceNext) == MotionKind::Exclusive
            &&& kind(Motion::SentencePrev) == MotionKind::Exclusive
            &&& moved(Motion::WordStart { big }) && moved(Motion::WordBack { big }) && moved(
                Motion::WordEnd { big },
            ) && moved(Motion::ParaNext) && moved(Motion::ParaPrev) && moved(Motion::SentenceNext)
                && moved(Motion::SentencePrev)
        }),
{
    reveal(landing);
}

/// `%` lands where the other bracket is.
pub proof fn percent_lands_on_the_bracket<B: VimBuffer>(
    v: Vim,
    d: Doc,
    seen: (usize, usize),
    count: int,
)
    requires
        in_text(v, d),
    ensures
        ({
            let r = landing::<B>(v, d, seen, Motion::MatchBracket, count);
            match matching_bracket(d, v.cursor.offset as int) {
                Some(p) => r.moved && r.offset as int == p as usize as int,
                None => !r.moved && r.offset == v.cursor.offset,
            }
        }),
{
    reveal(landing);
}

/// `gg`, `G`, `%`, the searches, the motions over sentences and paragraphs, those
/// to marks and those by screens are jumps; those within a line, by words and by
/// lines are not.
pub proof fn which_motions_are_jumps(big: bool, forward: bool, till: bool)
    ensures
        (Motion::GoToLine { first: forward }).jumps(),
        Motion::FilePercent.jumps() && Motion::MatchBracket.jumps(),
        (Motion::SearchNext { forward }).jumps() && (Motion::StarSearch { forward }).jumps(),
        Motion::ParaNext.jumps() && Motion::ParaPrev.jumps(),
        Motion::SentenceNext.jumps() && Motion::SentencePrev.jumps(),
        (Motion::MarkJump { linewise: till }).jumps(),
        Motion::ScreenTop.jumps() && Motion::ScreenMiddle.jumps() && Motion::ScreenBottom.jumps(),
        Motion::PageUp.jumps() && Motion::PageDown.jumps(),
        Motion::ScrollHalfUp.jumps() && Motion::ScrollHalfDown.jumps(),
        !Motion::Left.jumps() && !Motion::Right.jumps() && !Motion::Up.jumps()
            && !Motion::Down.jumps(),
        !Motion::LineStart.jumps() && !Motion::FirstNonBlank.jumps() && !Motion::LineEnd.jumps()
            && !Motion::LastLineNonBlank.jumps() && !Motion::Column.jumps(),
        !(Motion::WordStart { big }).jumps() && !(Motion::WordEnd { big }).jumps()
            && !(Motion::WordBack { big }).jumps() && !(Motion::WordEndBack { big }).jumps(),
        !(Motion::FindChar { forward, till }).jumps() && !(Motion::RepeatFind { reverse: till }).jumps(),
        !Motion::LineDownFirstNonBlank.jumps() && !Motion::LineUpFirstNonBlank.jumps(),
{
}

} // verus!
