//! What the text objects cover, in terms of the text alone.
use crate::cells::{char_fits, width};
use crate::chars::white;
use crate::doc::Doc;
use crate::objects::{
    blank_at, block_first, block_last, charwise, leaves_blanks, leaves_blanks_back,
    is_quote, leaves_run, leaves_run_back, object_class, quote_pair, quotes_in, Extent, TextObject,
};
use crate::word::{class_of, scan, scan_back};
use vstd::prelude::*;

verus! {

// ---- paragraphs --------------------------------------------------------------------

proof fn lemma_block_first(d: Doc, i: int, blank: bool)
    requires
        0 <= i,
        d.is_blank(i) == blank,
    ensures
        0 <= block_first(d, i, blank) <= i,
        forall|k: int| block_first(d, i, blank) <= k <= i ==> #[trigger] d.is_blank(k) == blank,
        block_first(d, i, blank) > 0 ==> d.is_blank(block_first(d, i, blank) - 1) != blank,
    decreases i,
{
    if i > 0 && d.is_blank(i - 1) == blank {
        lemma_block_first(d, i - 1, blank);
    }
}

proof fn lemma_block_last(d: Doc, i: int, blank: bool)
    requires
        i < d.line_count(),
        d.is_blank(i) == blank,
    ensures
        i <= block_last(d, i, blank) < d.line_count(),
        forall|k: int| i <= k <= block_last(d, i, blank) ==> #[trigger] d.is_blank(k) == blank,
        block_last(d, i, blank) + 1 < d.line_count() ==> d.is_blank(block_last(d, i, blank) + 1)
            != blank,
    decreases d.line_count() - i,
{
    if i + 1 < d.line_count() && d.is_blank(i + 1) == blank {
        lemma_block_last(d, i + 1, blank);
    }
}

/// `ip` covers the whole lines `first` to `last` around the cursor's: they are
/// blank if the cursor's is and not blank if it is not, and the lines next to
/// them, where there are any, are of the other sort. `ap` covers the same lines
/// and one more behind them, if there is one.
pub proof fn a_paragraph_is_a_block_of_lines(d: Doc, o: int) -> (r: (int, int))
    requires
        d.wf(),
        0 <= o,
    ensures
        ({
            let (first, last) = r;
            let inner = TextObject::Paragraph { inner: true }.extent(d, o);
            let outer = TextObject::Paragraph { inner: false }.extent(d, o);
            &&& 0 <= first <= d.line_of(o) <= last < d.line_count()
            &&& forall|i: int|
                first <= i <= last ==> #[trigger] d.is_blank(i) == d.is_blank(d.line_of(o))
            &&& first > 0 ==> d.is_blank(first - 1) != d.is_blank(d.line_of(o))
            &&& last + 1 < d.line_count() ==> d.is_blank(last + 1) != d.is_blank(d.line_of(o))
            &&& inner == Some(
                Extent { start: d.line_start(first), end: d.line_stop(last), linewise: true },
            )
            &&& outer == Some(
                Extent {
                    start: d.line_start(first),
                    end: if last + 1 < d.line_count() {
                        d.line_stop(last + 1)
                    } else {
                        d.line_stop(last)
                    },
                    linewise: true,
                },
            )
        }),
{
    let line = d.line_of(o);
    let blank = d.is_blank(line);
    d.lemma_line_of(o);
    lemma_block_first(d, line, blank);
    lemma_block_last(d, line, blank);
    (block_first(d, line, blank), block_last(d, line, blank))
}

// ---- words -------------------------------------------------------------------------

/// What `scan` leaves behind it does not stop it, and where it ends something
/// does.
pub proof fn lemma_scanned(d: Doc, o: int, stop: spec_fn(int) -> bool)
    requires
        d.wf(),
        0 <= o <= d.len(),
        d.at_boundary(o),
    ensures
        o <= scan(d, o, stop) <= d.len(),
        d.at_boundary(scan(d, o, stop)),
        scan(d, o, stop) == d.len() || stop(scan(d, o, stop)),
        forall|k: int|
            o <= k < scan(d, o, stop) && d.char_at(k) is Some ==> !#[trigger] stop(k),
    decreases d.len() - o,
{
    d.lemma_char_fits(o);
    if o < d.len() && !stop(o) {
        let n = o + width(d.char_at(o)->0);
        lemma_scanned(d, n, stop);
        assert forall|k: int|
            o <= k < scan(d, o, stop) && d.char_at(k) is Some implies !#[trigger] stop(k) by {
            if o < k < n {
                assert(char_fits(d.cells, o));
            }
        }
    }
}

/// The same of `scan_back`: the character before where it ends stops it.
pub proof fn lemma_scanned_back(d: Doc, o: int, stop: spec_fn(int) -> bool)
    requires
        d.wf(),
        0 <= o <= d.len(),
        d.at_boundary(o),
    ensures
        0 <= scan_back(d, o, stop) <= o,
        d.at_boundary(scan_back(d, o, stop)),
        scan_back(d, o, stop) == 0 || stop(d.prev(scan_back(d, o, stop))->0),
        forall|k: int|
            scan_back(d, o, stop) <= k < o && d.char_at(k) is Some ==> !#[trigger] stop(k),
    decreases o,
{
    if o > 0 {
        d.lemma_prev(o);
        let p = d.prev(o)->0;
        if !stop(p) {
            lemma_scanned_back(d, p, stop);
            assert forall|k: int|
                scan_back(d, o, stop) <= k < o && d.char_at(k) is Some implies !#[trigger] stop(
                k,
            ) by {
                if p < k < o {
                    assert(char_fits(d.cells, p));
                }
            }
        }
    }
}

/// The characters at `a` and `b` belong to the same sort of run: words,
/// punctuation and blanks, or with `big` only words and blanks.
pub open spec fn alike(d: Doc, a: int, b: int, big: bool) -> bool {
    match (d.char_at(a), d.char_at(b)) {
        (Some(x), Some(y)) => if big {
            x != '\n' && y != '\n' && white(x) == white(y)
        } else {
            class_of(x) == class_of(y)
        },
        _ => false,
    }
}

/// `iw` and `iW` on a character of a line cover the characters around it of its
/// own sort, and no more of them stand next to it on the line.
pub proof fn an_inner_word_is_a_run(d: Doc, o: int, big: bool)
    requires
        d.wf(),
        d.at_boundary(o),
        0 <= o < d.line_end(d.line_of(o)),
        d.char_at(o) != Some('\n'),
    ensures
        ({
            let line = d.line_of(o);
            let e = TextObject::Word { inner: true, big }.extent(d, o)->0;
            &&& TextObject::Word { inner: true, big }.extent(d, o) is Some
            &&& !e.linewise
            &&& d.line_start(line) <= e.start <= o < e.end <= d.line_end(line)
            &&& d.at_boundary(e.start) && d.at_boundary(e.end)
            &&& forall|k: int|
                e.start <= k < e.end && #[trigger] d.char_at(k) is Some ==> alike(d, k, o, big)
            &&& e.start > d.line_start(line) ==> !alike(d, d.prev(e.start)->0, o, big)
            &&& e.end < d.line_end(line) ==> !alike(d, e.end, o, big)
        }),
{
    let line = d.line_of(o);
    let (from, to) = (d.line_start(line), d.line_end(line));
    d.lemma_line_of(o);
    d.lemma_line_bounds(line);
    d.lemma_char_fits(o);
    let k = object_class(d, o, big)->0;
    let back = leaves_run_back(d, from, big, k);
    let on = leaves_run(d, to, big, k);
    let n = d.next(o)->0;
    let c = d.char_at(o)->0;
    assert(n <= to) by {
        if n > to {
            assert(char_fits(d.cells, o));
            assert(d.cells[to] is None);
        }
    }
    lemma_scanned_back(d, o, back);
    lemma_scanned(d, n, on);
    let start = scan_back(d, o, back);
    let end = scan(d, n, on);
    assert forall|p: int| d.char_at(p) is Some implies (object_class(d, p, big) == Some(k))
        == alike(d, p, o, big) by {}
    assert(start >= from) by {
        if start < from {
            assert(!back(start));
        }
    }
    assert(end <= to) by {
        if end > to {
            assert(!on(to));
        }
    }
    assert forall|p: int| start <= p < end && #[trigger] d.char_at(p) is Some implies alike(
        d,
        p,
        o,
        big,
    ) by {
        if p < o {
            assert(!back(p));
        } else if p >= n {
            assert(!on(p));
        } else if p > o {
            assert(char_fits(d.cells, o));
        }
    }
    if start > from {
        d.lemma_prev(start);
        let p = d.prev(start)->0;
        assert(p >= from) by {
            if p < from {
                assert(char_fits(d.cells, p));
                assert(d.cells[from] is None);
            }
        }
        assert(back(p));
    }
    if end < to {
        assert(on(end));
        assert(d.char_at(end) is Some);
    }
}

/// `aw` and `aW` on a word cover it and the blanks behind it on its line;
/// without any, the blanks before it. On blanks they cover what `iw` does.
pub proof fn a_word_takes_its_blanks(d: Doc, o: int, big: bool)
    requires
        d.wf(),
        d.at_boundary(o),
        0 <= o < d.line_end(d.line_of(o)),
        d.char_at(o) != Some('\n'),
    ensures
        ({
            let line = d.line_of(o);
            let i = TextObject::Word { inner: true, big }.extent(d, o)->0;
            let a = TextObject::Word { inner: false, big }.extent(d, o)->0;
            let white_at = |k: int| d.char_at(k) matches Some(c) && white(c);
            let behind = i.end < d.line_end(line) && white_at(i.end);
            &&& TextObject::Word { inner: false, big }.extent(d, o) is Some
            &&& !a.linewise
            &&& white_at(o) ==> a == i
            &&& !white_at(o) ==> {
                &&& d.line_start(line) <= a.start <= i.start
                &&& i.end <= a.end <= d.line_end(line)
                &&& behind ==> a.start == i.start && a.end > i.end
                &&& !behind ==> a.end == i.end
                &&& forall|k: int|
                    a.start <= k < i.start && #[trigger] d.char_at(k) is Some ==> white_at(k)
                &&& forall|k: int|
                    i.end <= k < a.end && #[trigger] d.char_at(k) is Some ==> white_at(k)
                &&& behind && a.end < d.line_end(line) ==> !white_at(a.end)
                &&& !behind && a.start > d.line_start(line) ==> !white_at(d.prev(a.start)->0)
            }
        }),
{
    let line = d.line_of(o);
    let (from, to) = (d.line_start(line), d.line_end(line));
    an_inner_word_is_a_run(d, o, big);
    d.lemma_line_of(o);
    d.lemma_line_bounds(line);
    let i = TextObject::Word { inner: true, big }.extent(d, o)->0;
    let on = leaves_blanks(d, to);
    let back = leaves_blanks_back(d, from);
    lemma_scanned(d, i.end, on);
    lemma_scanned_back(d, i.start, back);
    let wider = scan(d, i.end, on);
    let start = scan_back(d, i.start, back);
    if wider > i.end {
        assert(d.char_at(i.end) is Some);
        assert(!on(i.end));
    } else if i.end < to {
        assert(on(i.end));
    }
    assert(wider <= to) by {
        if wider > to {
            assert(!on(to));
        }
    }
    assert(start >= from) by {
        if start < from {
            assert(!back(start));
        }
    }
    if start > from {
        d.lemma_prev(start);
        let p = d.prev(start)->0;
        assert(p >= from) by {
            if p < from {
                assert(char_fits(d.cells, p));
                assert(d.cells[from] is None);
            }
        }
        assert(back(p));
    }
    if wider < to {
        assert(on(wider));
    }
    assert forall|k: int|
        i.end <= k < wider && #[trigger] d.char_at(k) is Some implies blank_at(d, k) by {
        assert(!on(k));
    }
    assert forall|k: int|
        start <= k < i.start && #[trigger] d.char_at(k) is Some implies blank_at(d, k) by {
        assert(!back(k));
    }
}

// ---- quotes ------------------------------------------------------------------------

/// A quotation mark stands at `k` in a line from `from` on, and no backslash
/// before it.
pub open spec fn bare_quote(d: Doc, k: int, from: int, quote: char) -> bool {
    d.char_at(k) == Some(quote) && (k == from || d.char_at(k - 1) != Some('\\'))
}

/// How many such quotation marks stand in `[from, k)`.
pub open spec fn quotes_before(d: Doc, from: int, k: int, quote: char) -> int
    decreases k - from,
{
    if k <= from {
        0
    } else {
        quotes_before(d, from, k - 1, quote) + if bare_quote(d, k - 1, from, quote) {
            1int
        } else {
            0
        }
    }
}

proof fn lemma_quotes_skip(d: Doc, from: int, a: int, b: int, quote: char)
    requires
        from <= a <= b,
        forall|k: int| a <= k < b ==> !#[trigger] bare_quote(d, k, from, quote),
    ensures
        quotes_before(d, from, b, quote) == quotes_before(d, from, a, quote),
    decreases b - a,
{
    if a < b {
        lemma_quotes_skip(d, from, a, b - 1, quote);
        assert(!bare_quote(d, b - 1, from, quote));
    }
}

/// The list of quotation marks from `o` on: all of them, in order.
proof fn lemma_quotes_in(d: Doc, o: int, from: int, end: int, quote: char)
    requires
        d.wf(),
        0 <= from <= o,
        end <= d.len(),
        d.at_boundary(o),
        d.at_boundary(end),
        o <= d.len(),
    ensures
        ({
            let at = quotes_in(d, o, from, end, quote);
            &&& forall|i: int|
                0 <= i < at.len() ==> o <= #[trigger] at[i] < end && bare_quote(
                    d,
                    at[i],
                    from,
                    quote,
                ) && quotes_before(d, from, at[i], quote) == quotes_before(d, from, o, quote) + i
            &&& forall|i: int, j: int|
                0 <= i < j < at.len() ==> #[trigger] at[i] < #[trigger] at[j]
            &&& forall|k: int|
                o <= k < end && #[trigger] bare_quote(d, k, from, quote) ==> at.contains(k)
        }),
    decreases d.len() - o,
{
    let at = quotes_in(d, o, from, end, quote);
    if o < end {
        d.lemma_char_fits(o);
        let n = d.next(o)->0;
        assert(char_fits(d.cells, o));
        lemma_quotes_in(d, n, from, end, quote);
        let rest = quotes_in(d, n, from, end, quote);
        lemma_quotes_skip(d, from, o + 1, n, quote);
        let here = bare_quote(d, o, from, quote);
        assert(quotes_before(d, from, o + 1, quote) == quotes_before(d, from, o, quote) + if here {
            1int
        } else {
            0
        });
        assert(here == is_quote(d, o, from, quote));
        if here {
            assert(at =~= seq![o] + rest);
            assert forall|i: int| 0 <= i < at.len() implies o <= #[trigger] at[i] < end
                && bare_quote(d, at[i], from, quote) && quotes_before(d, from, at[i], quote)
                == quotes_before(d, from, o, quote) + i by {
                if i > 0 {
                    assert(at[i] == rest[i - 1]);
                }
            }
            assert forall|i: int, j: int| 0 <= i < j < at.len() implies #[trigger] at[i]
                < #[trigger] at[j] by {
                assert(at[j] == rest[j - 1]);
                if i > 0 {
                    assert(at[i] == rest[i - 1]);
                }
            }
        } else {
            assert(at =~= rest);
        }
        assert forall|k: int|
            o <= k < end && #[trigger] bare_quote(d, k, from, quote) implies at.contains(k) by {
            if k == o {
                assert(at[0] == o);
            } else if k >= n {
                let i = choose|i: int| 0 <= i < rest.len() && rest[i] == k;
                if here {
                    assert(at[i + 1] == k);
                } else {
                    assert(at[i] == k);
                }
            }
        }
    }
}

/// Which pair `quote_pair` takes.
proof fn lemma_quote_pair(at: Seq<int>, i: int, o: int) -> (j: int)
    requires
        i >= 0,
        forall|a: int, b: int| 0 <= a < b < at.len() ==> #[trigger] at[a] < #[trigger] at[b],
        i > 0 ==> i <= at.len() && at[i - 1] < o,
        i % 2 == 0,
    ensures
        j % 2 == 0,
        j >= i,
        match quote_pair(at, i, o) {
            Some((open, close)) => j + 1 < at.len() && open == at[j] && close == at[j + 1] && o
                <= close && (j > 0 ==> at[j - 1] < o),
            None => j + 1 >= at.len() && (j > 0 ==> j <= at.len() && at[j - 1] < o),
        },
    decreases at.len() - i,
{
    if i + 1 >= at.len() || o <= at[i + 1] {
        i
    } else {
        lemma_quote_pair(at, i + 2, o)
    }
}

/// `i"` covers what is between two quotation marks of the cursor's line that no
/// other comes between, and `a"` the marks too. An even number of marks stands
/// before the first, so that the two belong together; they enclose the cursor or
/// are the next that stand behind it. A mark behind a backslash counts for
/// nothing.
pub proof fn a_quote_is_between_its_marks(d: Doc, o: int, quote: char) -> (r: (int, int))
    requires
        d.wf(),
        0 <= o <= d.len(),
    ensures
        ({
            let (open, close) = r;
            let line = d.line_of(o);
            let from = d.line_start(line);
            let end = d.line_end(line);
            let inner = TextObject::Quote { inner: true, quote }.extent(d, o);
            let outer = TextObject::Quote { inner: false, quote }.extent(d, o);
            &&& inner is Some == outer is Some
            &&& inner is Some ==> {
                &&& inner == Some(charwise(open + width(quote), close))
                &&& outer == Some(charwise(open, close + width(quote)))
                &&& from <= open < close < end
                &&& o <= close
                &&& bare_quote(d, open, from, quote) && bare_quote(d, close, from, quote)
                &&& forall|k: int| open < k < close ==> !#[trigger] bare_quote(d, k, from, quote)
                &&& quotes_before(d, from, open, quote) % 2 == 0
                &&& forall|k: int|
                    from <= k < open && #[trigger] bare_quote(d, k, from, quote) ==> k < o
            }
            &&& inner is None ==> forall|k: int|
                from <= k < end && #[trigger] bare_quote(d, k, from, quote) && quotes_before(
                    d,
                    from,
                    k,
                    quote,
                ) % 2 == 1 ==> k < o
        }),
{
    let line = d.line_of(o);
    let from = d.line_start(line);
    let end = d.line_end(line);
    d.lemma_line_of(o);
    d.lemma_line_bounds(line);
    let at = quotes_in(d, from, from, end, quote);
    lemma_quotes_in(d, from, from, end, quote);
    let j = lemma_quote_pair(at, 0, o);
    assert forall|k: int|
        from <= k < end && #[trigger] bare_quote(d, k, from, quote) implies quotes_before(
        d,
        from,
        k,
        quote,
    ) < at.len() && quotes_before(d, from, k, quote) >= 0 && at[quotes_before(d, from, k, quote)]
        == k by {
        let i = choose|i: int| 0 <= i < at.len() && at[i] == k;
        assert(at[i] == k);
    }
    match quote_pair(at, 0, o) {
        Some((open, close)) => {
            assert forall|k: int| open < k < close implies !#[trigger] bare_quote(
                d,
                k,
                from,
                quote,
            ) by {
                if bare_quote(d, k, from, quote) {
                    let i = quotes_before(d, from, k, quote);
                    assert(at[i] == k);
                    assert(i <= j || j + 1 <= i);
                }
            }
            assert forall|k: int|
                from <= k < open && #[trigger] bare_quote(d, k, from, quote) implies k < o by {
                let i = quotes_before(d, from, k, quote);
                assert(at[i] == k);
                assert(i < j) by {
                    if j < i {
                        assert(at[j] < at[i]);
                    }
                }
                assert(at[i] <= at[j - 1]);
            }
            (open, close)
        },
        None => {
            assert forall|k: int|
                from <= k < end && #[trigger] bare_quote(d, k, from, quote) && quotes_before(
                    d,
                    from,
                    k,
                    quote,
                ) % 2 == 1 implies k < o by {
                let i = quotes_before(d, from, k, quote);
                assert(at[i] == k);
                assert(i <= j - 1);
                assert(at[i] <= at[j - 1]);
            }
            (0, 0)
        },
    }
}

} // verus!
