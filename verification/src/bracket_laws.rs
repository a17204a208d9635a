//! Which brackets belong together.
use crate::cells::{char_fits, width};
use crate::doc::Doc;
use crate::object_laws::lemma_scanned;
use crate::objects::{charwise, TextObject};
use crate::word::{at_bracket, bracket_near, close_of, matching_bracket, open_of, partner};
use vstd::prelude::*;

verus! {

/// How many more `open` than `close` start in `[a, b)`.
pub open spec fn nesting(d: Doc, a: int, b: int, open: char, close: char) -> int
    decreases b - a,
{
    if a >= b {
        0
    } else {
        nesting(d, a + 1, b, open, close) + if d.char_at(a) == Some(open) {
            1int
        } else if d.char_at(a) == Some(close) {
            -1
        } else {
            0
        }
    }
}

/// The brackets at `a` and `b` belong together: between them as many are opened
/// as closed, and none is closed that was not opened.
pub open spec fn paired(d: Doc, a: int, b: int, open: char, close: char) -> bool {
    &&& 0 <= a < b < d.len()
    &&& d.char_at(a) == Some(open)
    &&& d.char_at(b) == Some(close)
    &&& nesting(d, a + 1, b, open, close) == 0
    &&& forall|k: int| a < k <= b ==> #[trigger] nesting(d, a + 1, k, open, close) >= 0
}

proof fn lemma_nesting_splits(d: Doc, a: int, m: int, b: int, open: char, close: char)
    requires
        a <= m <= b,
    ensures
        nesting(d, a, b, open, close) == nesting(d, a, m, open, close) + nesting(
            d,
            m,
            b,
            open,
            close,
        ),
    decreases m - a,
{
    if a < m {
        lemma_nesting_splits(d, a + 1, m, b, open, close);
    }
}

/// The bytes behind the first of a character hold no bracket.
proof fn lemma_nesting_in_char(d: Doc, o: int, k: int, open: char, close: char)
    requires
        d.wf(),
        d.char_at(o) is Some,
        o < k <= o + width(d.char_at(o)->0),
    ensures
        nesting(d, o + 1, k, open, close) == 0,
    decreases k - o,
{
    d.lemma_char_fits(o);
    assert(char_fits(d.cells, o));
    if k > o + 1 {
        lemma_nesting_in_char(d, o, k - 1, open, close);
        lemma_nesting_splits(d, o + 1, k - 1, k, open, close);
        assert(d.char_at(k - 1) is None);
        assert(nesting(d, k, k, open, close) == 0);
    }
}

/// Where the last of `depth` pairs closes.
proof fn lemma_close(d: Doc, o: int, open: char, close: char, depth: int)
    requires
        d.wf(),
        open != close,
        depth >= 1,
        0 <= o <= d.len(),
        d.at_boundary(o),
    ensures
        match close_of(d, o, open, close, depth) {
            Some(m) => {
                &&& o <= m < d.len()
                &&& d.char_at(m) == Some(close)
                &&& depth + nesting(d, o, m, open, close) == 1
                &&& forall|k: int| o <= k <= m ==> depth + #[trigger] nesting(
                    d,
                    o,
                    k,
                    open,
                    close,
                ) >= 1
            },
            None => forall|k: int|
                o <= k <= d.len() ==> depth + #[trigger] nesting(d, o, k, open, close) >= 1,
        },
    decreases d.len() - o,
{
    d.lemma_char_fits(o);
    if let Some(c) = d.char_at(o) {
        let n = o + width(c);
        let next = if c == open {
            depth + 1
        } else if c == close {
            depth - 1
        } else {
            depth
        };
        assert forall|k: int| n <= k implies #[trigger] nesting(d, o, k, open, close) == nesting(
            d,
            n,
            k,
            open,
            close,
        ) + (next - depth) by {
            lemma_nesting_splits(d, o, n, k, open, close);
            lemma_nesting_in_char(d, o, n, open, close);
        }
        assert forall|k: int| o < k <= n implies #[trigger] nesting(d, o, k, open, close) == next
            - depth by {
            lemma_nesting_in_char(d, o, k, open, close);
        }
        assert(nesting(d, o, o, open, close) == 0);
        if !(c == close && depth <= 1) {
            lemma_close(d, n, open, close, next);
            match close_of(d, n, open, close, next) {
                Some(m) => {
                    assert forall|k: int| o <= k <= m implies depth + #[trigger] nesting(
                        d,
                        o,
                        k,
                        open,
                        close,
                    ) >= 1 by {
                        if k >= n {
                            assert(next + nesting(d, n, k, open, close) >= 1);
                        }
                    }
                },
                None => {
                    assert forall|k: int| o <= k <= d.len() implies depth + #[trigger] nesting(
                        d,
                        o,
                        k,
                        open,
                        close,
                    ) >= 1 by {
                        if k >= n {
                            assert(next + nesting(d, n, k, open, close) >= 1);
                        }
                    }
                },
            }
        }
    } else {
        assert(o == d.len());
    }
}

/// Where the outermost of `depth` pairs and one more opens.
proof fn lemma_open(d: Doc, o: int, open: char, close: char, depth: int)
    requires
        d.wf(),
        open != close,
        depth >= 0,
        0 <= o <= d.len(),
        d.at_boundary(o),
    ensures
        match open_of(d, o, open, close, depth) {
            Some(p) => {
                &&& 0 <= p < o
                &&& d.char_at(p) == Some(open)
                &&& nesting(d, p + 1, o, open, close) == depth
                &&& forall|k: int| p < k <= o ==> #[trigger] nesting(d, k, o, open, close) <= depth
            },
            None => forall|k: int|
                0 <= k <= o ==> #[trigger] nesting(d, k, o, open, close) <= depth,
        },
    decreases o,
{
    assert(nesting(d, o, o, open, close) == 0);
    if o > 0 {
        d.lemma_prev(o);
        let p = d.prev(o)->0;
        let c = d.char_at(p)->0;
        let next = if c == close {
            depth + 1
        } else if c == open {
            depth - 1
        } else {
            depth
        };
        assert forall|k: int| p < k <= o implies #[trigger] nesting(d, k, o, open, close) == 0 by {
            lemma_nesting_in_char(d, p, o, open, close);
            lemma_nesting_in_char(d, p, k, open, close);
            lemma_nesting_splits(d, p + 1, k, o, open, close);
        }
        assert(nesting(d, p + 1, o, open, close) == 0);
        assert(nesting(d, p, o, open, close) == depth - next);
        assert forall|k: int| k <= p implies #[trigger] nesting(d, k, o, open, close) == nesting(
            d,
            k,
            p,
            open,
            close,
        ) + (depth - next) by {
            lemma_nesting_splits(d, k, p, o, open, close);
        }
        if !(c == open && depth <= 0) {
            lemma_open(d, p, open, close, next);
        }
    }
}

/// A pair is found from its opening bracket.
proof fn lemma_close_from_open(d: Doc, o: int, open: char, close: char)
    requires
        d.wf(),
        open != close,
        d.char_at(o) == Some(open),
    ensures
        match close_of(d, o, open, close, 0) {
            Some(m) => paired(d, o, m, open, close),
            None => forall|m: int| !#[trigger] paired(d, o, m, open, close),
        },
{
    d.lemma_char_fits(o);
    let n = o + width(open);
    lemma_close(d, n, open, close, 1);
    assert forall|k: int| n <= k implies #[trigger] nesting(d, o + 1, k, open, close) == nesting(
        d,
        n,
        k,
        open,
        close,
    ) by {
        lemma_nesting_splits(d, o + 1, n, k, open, close);
        lemma_nesting_in_char(d, o, n, open, close);
    }
    assert forall|k: int| o < k <= n implies #[trigger] nesting(d, o + 1, k, open, close) == 0 by {
        lemma_nesting_in_char(d, o, k, open, close);
    }
    match close_of(d, o, open, close, 0) {
        Some(m) => {
            assert forall|k: int| o < k <= m implies #[trigger] nesting(d, o + 1, k, open, close)
                >= 0 by {
                if k >= n {
                    assert(1 + nesting(d, n, k, open, close) >= 1);
                }
            }
        },
        None => {
            assert forall|m: int| !#[trigger] paired(d, o, m, open, close) by {
                if paired(d, o, m, open, close) {
                    assert(char_fits(d.cells, o));
                    assert(m >= n);
                    assert(1 + nesting(d, n, m + 1, open, close) >= 1);
                    lemma_nesting_splits(d, n, m, m + 1, open, close);
                    assert(nesting(d, m + 1, m + 1, open, close) == 0);
                    assert(nesting(d, o + 1, m, open, close) == 0);
                }
            }
        },
    }
}

/// A pair is found from its closing bracket.
proof fn lemma_open_from_close(d: Doc, o: int, open: char, close: char)
    requires
        d.wf(),
        open != close,
        d.char_at(o) == Some(close),
    ensures
        match open_of(d, o, open, close, 0) {
            Some(p) => paired(d, p, o, open, close),
            None => forall|p: int| !#[trigger] paired(d, p, o, open, close),
        },
{
    d.lemma_char_fits(o);
    lemma_open(d, o, open, close, 0);
    match open_of(d, o, open, close, 0) {
        Some(p) => {
            assert forall|k: int| p < k <= o implies #[trigger] nesting(d, p + 1, k, open, close)
                >= 0 by {
                lemma_nesting_splits(d, p + 1, k, o, open, close);
                assert(nesting(d, k, o, open, close) <= 0);
            }
        },
        None => {
            assert forall|p: int| !#[trigger] paired(d, p, o, open, close) by {
                if paired(d, p, o, open, close) {
                    assert(nesting(d, p, o, open, close) <= 0);
                    assert(nesting(d, p + 1, o, open, close) == 0);
                }
            }
        },
    }
}

/// `%` on a bracket goes to the one that belongs to it, forward from an opening
/// one and back from a closing one; it fails when there is none.
pub proof fn percent_goes_to_the_other_bracket(d: Doc, o: int)
    requires
        d.wf(),
        0 <= o <= d.len(),
    ensures
        d.char_at(o) == Some('(') ==> match matching_bracket(d, o) {
            Some(m) => paired(d, o, m, '(', ')'),
            None => forall|m: int| !#[trigger] paired(d, o, m, '(', ')'),
        },
        d.char_at(o) == Some('[') ==> match matching_bracket(d, o) {
            Some(m) => paired(d, o, m, '[', ']'),
            None => forall|m: int| !#[trigger] paired(d, o, m, '[', ']'),
        },
        d.char_at(o) == Some('{') ==> match matching_bracket(d, o) {
            Some(m) => paired(d, o, m, '{', '}'),
            None => forall|m: int| !#[trigger] paired(d, o, m, '{', '}'),
        },
        d.char_at(o) == Some(')') ==> match matching_bracket(d, o) {
            Some(m) => paired(d, m, o, '(', ')'),
            None => forall|m: int| !#[trigger] paired(d, m, o, '(', ')'),
        },
        d.char_at(o) == Some(']') ==> match matching_bracket(d, o) {
            Some(m) => paired(d, m, o, '[', ']'),
            None => forall|m: int| !#[trigger] paired(d, m, o, '[', ']'),
        },
        d.char_at(o) == Some('}') ==> match matching_bracket(d, o) {
            Some(m) => paired(d, m, o, '{', '}'),
            None => forall|m: int| !#[trigger] paired(d, m, o, '{', '}'),
        },
{
    if let Some(c) = d.char_at(o) {
        d.lemma_line_of(o);
        d.lemma_line_bounds(d.line_of(o));
        if partner(c) is Some {
            assert(bracket_near(d, o) == o);
            if c == '(' {
                lemma_close_from_open(d, o, '(', ')');
            } else if c == '[' {
                lemma_close_from_open(d, o, '[', ']');
            } else if c == '{' {
                lemma_close_from_open(d, o, '{', '}');
            } else if c == ')' {
                lemma_open_from_close(d, o, '(', ')');
            } else if c == ']' {
                lemma_open_from_close(d, o, '[', ']');
            } else {
                lemma_open_from_close(d, o, '{', '}');
            }
        }
    }
}

/// A bracket of any kind stands at `k`.
pub open spec fn any_bracket(d: Doc, k: int) -> bool {
    d.char_at(k) matches Some(c) && (c == '(' || c == ')' || c == '[' || c == ']' || c == '{' || c
        == '}')
}

/// `%` off a bracket goes where it does from the next one behind the cursor on
/// its line, and fails when there is none.
pub proof fn percent_looks_along_the_line(d: Doc, o: int)
    requires
        d.wf(),
        d.at_boundary(o),
        0 <= o <= d.len(),
    ensures
        ({
            let end = d.line_end(d.line_of(o));
            &&& forall|k: int|
                o <= k < end && #[trigger] any_bracket(d, k) && (forall|j: int|
                    o <= j < k ==> !#[trigger] any_bracket(d, j)) ==> matching_bracket(d, o)
                    == matching_bracket(d, k)
            &&& o <= end && (forall|k: int| o <= k <= end ==> !#[trigger] any_bracket(d, k))
                ==> matching_bracket(d, o) is None
        }),
{
    let line = d.line_of(o);
    let end = d.line_end(line);
    d.lemma_line_of(o);
    d.lemma_line_bounds(line);
    let stop = at_bracket(d, end);
    lemma_scanned(d, o, stop);
    let near = bracket_near(d, o);
    if near <= end && near < d.len() {
        assert(stop(near));
        assert(any_bracket(d, near));
    }
    assert forall|k: int|
        o <= k < end && #[trigger] any_bracket(d, k) && (forall|j: int|
            o <= j < k ==> !#[trigger] any_bracket(d, j)) implies matching_bracket(d, o)
        == matching_bracket(d, k) by {
        if near < k {
            assert(stop(near));
            assert(any_bracket(d, near));
        } else if near > k {
            assert(!stop(k));
        }
        assert(d.line_of(k) == line) by {
            d.lemma_line_of_unique(k, line);
        }
        assert(bracket_near(d, k) == k);
    }
}

/// `i(` and its kin cover what is between the two brackets that belong together
/// and enclose the cursor, and `a(` the brackets too; the cursor may be on one
/// of them.
pub proof fn a_block_is_between_its_brackets(d: Doc, o: int, open: char, close: char) -> (r: (
    int,
    int,
))
    requires
        d.wf(),
        open != close,
        0 <= o < d.len(),
        d.at_boundary(o),
    ensures
        ({
            let (a, b) = r;
            let inner = TextObject::Block { inner: true, open, close }.extent(d, o);
            let outer = TextObject::Block { inner: false, open, close }.extent(d, o);
            &&& inner is Some == outer is Some
            &&& inner is Some ==> {
                &&& inner == Some(charwise(a + width(open), b))
                &&& outer == Some(charwise(a, b + width(close)))
                &&& paired(d, a, b, open, close)
                &&& a <= o <= b
                &&& d.char_at(o) == Some(open) ==> a == o
                &&& d.char_at(o) == Some(close) ==> b == o
                &&& forall|k: int|
                    a < k <= o && d.char_at(o) != Some(open) ==> #[trigger] nesting(
                        d,
                        k,
                        o,
                        open,
                        close,
                    ) <= 0
            }
        }),
{
    let inner = TextObject::Block { inner: true, open, close }.extent(d, o);
    if d.char_at(o) == Some(open) {
        lemma_close_from_open(d, o, open, close);
        match close_of(d, o, open, close, 0) {
            Some(b) => (o, b),
            None => (0, 0),
        }
    } else {
        lemma_open(d, o, open, close, 0);
        lemma_close(d, o, open, close, 1);
        match (open_of(d, o, open, close, 0), close_of(d, o, open, close, 1)) {
            (Some(a), Some(b)) => {
                lemma_nesting_splits(d, a + 1, o, b, open, close);
                assert forall|k: int| a < k <= b implies #[trigger] nesting(
                    d,
                    a + 1,
                    k,
                    open,
                    close,
                ) >= 0 by {
                    if k <= o {
                        lemma_nesting_splits(d, a + 1, k, o, open, close);
                        assert(nesting(d, k, o, open, close) <= 0);
                    } else {
                        lemma_nesting_splits(d, a + 1, o, k, open, close);
                        assert(1 + nesting(d, o, k, open, close) >= 1);
                    }
                }
                (a, b)
            },
            _ => (0, 0),
        }
    }
}

/// Where two brackets that belong together enclose the cursor, a block is found.
pub proof fn an_enclosing_block_is_found(
    d: Doc,
    o: int,
    open: char,
    close: char,
    a: int,
    b: int,
    inner: bool,
)
    requires
        d.wf(),
        open != close,
        0 <= o < d.len(),
        d.at_boundary(o),
        paired(d, a, b, open, close),
        a <= o <= b,
    ensures
        (TextObject::Block { inner, open, close }).extent(d, o) is Some,
{
    if d.char_at(o) == Some(open) {
        if o == a {
            lemma_close_from_open(d, o, open, close);
            assert(paired(d, o, b, open, close));
        } else {
            // a pair that opens inside of another closes inside of it
            let n = o + width(open);
            lemma_close_from_open(d, o, open, close);
            d.lemma_char_fits(o);
            lemma_close(d, n, open, close, 1);
            if close_of(d, o, open, close, 0) is None {
                assert(n <= b) by {
                    assert(char_fits(d.cells, o));
                    if n > b {
                        assert(d.cells[b] is None || b == o);
                    }
                }
                lemma_nesting_splits(d, a + 1, o, b + 1, open, close);
                lemma_nesting_splits(d, a + 1, b, b + 1, open, close);
                assert(nesting(d, b + 1, b + 1, open, close) == 0);
                assert(nesting(d, b, b + 1, open, close) == -1);
                assert(nesting(d, a + 1, o, open, close) >= 0);
                lemma_nesting_splits(d, o, n, b + 1, open, close);
                lemma_nesting_in_char(d, o, n, open, close);
                assert(nesting(d, o, n, open, close) == 1);
                assert(1 + nesting(d, n, b + 1, open, close) >= 1);
            }
        }
    } else {
        lemma_open(d, o, open, close, 0);
        lemma_close(d, o, open, close, 1);
        assert(a < o);
        assert(nesting(d, a + 1, o, open, close) >= 0);
        if open_of(d, o, open, close, 0) is None {
            assert(nesting(d, a, o, open, close) <= 0);
        }
        if close_of(d, o, open, close, 1) is None {
            lemma_nesting_splits(d, a + 1, o, b + 1, open, close);
            lemma_nesting_splits(d, a + 1, b, b + 1, open, close);
            assert(nesting(d, b + 1, b + 1, open, close) == 0);
            assert(nesting(d, b, b + 1, open, close) == -1);
            assert(1 + nesting(d, o, b + 1, open, close) >= 1);
        }
    }
}

} // verus!
