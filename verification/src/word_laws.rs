//! Where words begin and end.
use crate::cells::{char_fits, width};
use crate::chars::white;
use crate::doc::Doc;
use crate::doc_laws::{a_blank_line_holds_only_blanks, spaced};
use crate::newline_laws::lemma_newlines_in_lines;
use crate::object_laws::{alike, lemma_scanned, lemma_scanned_back};
use crate::sentence_laws::inked;
use crate::text::newline_doc;
use crate::word::{
    class_in, class_of, is_word_end, last_word_end_is_the_last, not_blank, not_space,
    outside_run, run_last, run_stop, scan, scan_back, word_back_from, word_end_after, word_end_before, word_landing,
    word_start_after, word_start_before, Class,
};
use vstd::prelude::*;

verus! {

/// Letters, digits and the underscore are of one sort, white space is of
/// another, and the punctuation of ASCII of a third.
pub proof fn characters_come_in_three_sorts(c: char)
    ensures
        'a' <= c <= 'z' || 'A' <= c <= 'Z' || '0' <= c <= '9' || c == '_' ==> class_of(c)
            == Class::Word,
        c == ' ' || c == '\t' || c == '\n' ==> class_of(c) == Class::Blank,
        '!' <= c <= '/' || ':' <= c <= '@' || '[' <= c <= '^' || c == '`' || '{' <= c <= '~'
            ==> class_of(c) == Class::Punct,
        class_of(c) == Class::Blank <==> white(c),
{
}

/// A word begins at `k`: a character that is not white space, behind one of
/// another sort or at the beginning of the text.
pub open spec fn word_begins(d: Doc, k: int, big: bool) -> bool {
    inked(d, k) && (k == 0 || !alike(d, d.prev(k)->0, k, big))
}

/// A word ends with the character at `k`.
pub open spec fn word_stops(d: Doc, k: int, big: bool) -> bool {
    inked(d, k) && !alike(d, k + width(d.char_at(k)->0), k, big)
}

/// A blank line begins at `k`.
pub open spec fn blank_line_at(d: Doc, k: int) -> bool {
    0 <= k <= d.len() && d.line_start(d.line_of(k)) == k && d.is_blank(d.line_of(k))
}

/// All white space is spaces, tabs and newlines.
pub open spec fn plain_blanks(d: Doc) -> bool {
    forall|k: int|
        0 <= k < d.len() && (#[trigger] d.cells[k] matches Some(c) && white(c)) ==> d.cells[k]
            == Some(' ') || d.cells[k] == Some('\t') || d.cells[k] == Some('\n')
}

// ---- ends --------------------------------------------------------------------------

proof fn lemma_same_class(d: Doc, a: int, b: int, big: bool)
    requires
        inked(d, b),
    ensures
        (class_in(d, a, big) == class_in(d, b, big)) == alike(d, a, b, big),
{
}

proof fn lemma_run_last(d: Doc, o: int, big: bool, k: Class)
    requires
        d.wf(),
        inked(d, o),
        class_in(d, o, big) == Some(k),
    ensures
        ({
            let r = run_last(d, o, big, k);
            &&& o <= r < d.len()
            &&& word_stops(d, r, big)
            &&& forall|q: int| o <= q < r ==> !#[trigger] word_stops(d, q, big)
            &&& r == o ==> word_stops(d, o, big)
        }),
    decreases d.len() - o,
{
    d.lemma_char_fits(o);
    let n = d.next(o)->0;
    lemma_same_class(d, n, o, big);
    if class_in(d, n, big) == Some(k) {
        assert(inked(d, n));
        lemma_run_last(d, n, big, k);
        assert(char_fits(d.cells, o));
        let r = run_last(d, o, big, k);
        assert forall|q: int| o <= q < r implies !#[trigger] word_stops(d, q, big) by {
            if o < q < n {
                assert(d.char_at(q) is None);
            }
        }
    }
}

/// `e` goes to the end of a word behind the cursor that is the next one, and to
/// the end of the text when there is none.
pub proof fn word_end_is_the_next_one(d: Doc, o: int, big: bool)
    requires
        d.wf(),
        d.at_boundary(o),
        0 <= o < d.len(),
    ensures
        ({
            let p = word_end_after(d, o, big);
            &&& o < p <= d.len()
            &&& p < d.len() ==> word_stops(d, p, big)
            &&& forall|q: int| o < q < p ==> !#[trigger] word_stops(d, q, big)
        }),
{
    d.lemma_char_fits(o);
    let n = d.next(o)->0;
    assert(char_fits(d.cells, o));
    if inked(d, o) {
        lemma_run_last(d, o, big, class_in(d, o, big)->0);
    }
    let stop = not_blank(d);
    lemma_scanned(d, n, stop);
    let start = scan(d, n, stop);
    if start < d.len() {
        assert(stop(start));
        lemma_run_last(d, start, big, class_in(d, start, big)->0);
    } else {
        assert(d.char_at(start) is None);
    }
    let p = word_end_after(d, o, big);
    assert forall|q: int| o < q < p implies !#[trigger] word_stops(d, q, big) by {
        if q < n {
            assert(d.char_at(q) is None);
        } else if q < start && d.char_at(q) is Some {
            assert(!stop(q));
        }
    }
}

/// `ge` goes to the end of a word before the cursor that is the last one, and
/// stays when there is none.
pub proof fn word_end_back_is_the_last_one(d: Doc, o: int, big: bool)
    requires
        d.wf(),
        d.at_boundary(o),
        0 <= o <= d.len(),
    ensures
        ({
            let p = word_end_before(d, o, big);
            &&& 0 <= p <= o
            &&& p < o ==> word_stops(d, p, big)
            &&& forall|q: int| p < q < o ==> !#[trigger] word_stops(d, q, big)
            &&& p == o ==> forall|q: int| 0 <= q < o ==> !#[trigger] word_stops(d, q, big)
        }),
{
    last_word_end_is_the_last(d, o, big);
    assert forall|q: int| 0 <= q < o implies word_stops(d, q, big) == #[trigger] is_word_end(
        d,
        q,
        big,
    ) by {
        if inked(d, q) {
            lemma_same_class(d, q + width(d.char_at(q)->0), q, big);
            d.lemma_char_fits(q);
        }
    }
    let p = word_end_before(d, o, big);
    assert forall|q: int| p < q < o implies !#[trigger] word_stops(d, q, big) by {
        assert(word_stops(d, q, big) == is_word_end(d, q, big));
    }
    assert forall|q: int| p == o && 0 <= q < o implies !#[trigger] word_stops(d, q, big) by {
        assert(word_stops(d, q, big) == is_word_end(d, q, big));
    }
    if p < o {
        assert(is_word_end(d, p, big));
    }
}

// ---- beginnings, forward -------------------------------------------------------------

/// Behind a newline a line begins, and only there.
proof fn lemma_line_behind(d: Doc, p: int)
    requires
        d.wf(),
        d == newline_doc(d.cells),
        0 <= p < d.len(),
        d.char_at(p) == Some('\n'),
    ensures
        d.line_of(p + 1) == d.line_of(p) + 1,
        d.line_start(d.line_of(p + 1)) == p + 1,
        d.line_end(d.line_of(p)) == p,
{
    let i = d.line_of(p);
    d.lemma_line_of(p);
    d.lemma_line_bounds(i);
    lemma_newlines_in_lines(d, i);
    assert(d.cells[p] == Some('\n'));
    assert(p >= d.line_end(i));
    assert(i + 1 < d.line_count());
    d.lemma_line_bounds(i + 1);
    if i + 2 < d.line_count() {
        assert(d.starts[i + 1] < d.starts[i + 2]);
    }
    d.lemma_line_of_unique(p + 1, i + 1);
}

proof fn lemma_start_behind_newline(d: Doc, q: int)
    requires
        d.wf(),
        d == newline_doc(d.cells),
        0 < q <= d.len(),
        blank_line_at(d, q),
    ensures
        d.char_at(q - 1) == Some('\n'),
{
    let i = d.line_of(q);
    d.lemma_line_of(q);
    assert(i > 0);
    lemma_newlines_in_lines(d, i - 1);
}

proof fn lemma_landing(d: Doc, o: int)
    requires
        d.wf(),
        d == newline_doc(d.cells),
        plain_blanks(d),
        d.at_boundary(o),
        0 <= o <= d.len(),
    ensures
        ({
            let p = word_landing(d, o);
            &&& o <= p <= d.len()
            &&& d.at_boundary(p)
            &&& p == d.len() || inked(d, p) || (p > o && blank_line_at(d, p))
            &&& o < p < d.len() ==> !inked(d, d.prev(p)->0)
            &&& forall|q: int| o <= q < p ==> !#[trigger] inked(d, q)
            &&& forall|q: int| o < q < p ==> !#[trigger] blank_line_at(d, q)
            &&& p == o ==> o == d.len() || inked(d, o)
        }),
    decreases d.len() - o,
{
    let stop = not_space(d);
    lemma_scanned(d, o, stop);
    let s = scan(d, o, stop);
    assert forall|q: int| o <= q < s implies !#[trigger] inked(d, q) by {
        if d.char_at(q) is Some {
            assert(!stop(q));
        }
    }
    assert forall|q: int| o < q <= s implies !#[trigger] blank_line_at(d, q) by {
        if blank_line_at(d, q) {
            lemma_start_behind_newline(d, q);
            assert(d.char_at(q - 1) is Some);
            assert(!stop(q - 1));
        }
    }
    if s > o {
        d.lemma_prev(s);
        let b = d.prev(s)->0;
        assert(b >= o) by {
            if b < o {
                assert(char_fits(d.cells, b));
                assert(d.cells[o] is None);
            }
        }
        assert(!inked(d, b));
    }
    if s < d.len() {
        assert(stop(s));
        if d.char_at(s) == Some('\n') {
            d.lemma_char_fits(s);
            lemma_line_behind(d, s);
            d.lemma_line_of(s + 1);
            d.lemma_prev_of_next(s);
            if !d.is_blank(d.line_of(s + 1)) {
                lemma_landing(d, s + 1);
                let p = word_landing(d, s + 1);
                assert(p == word_landing(d, o));
                assert(!blank_line_at(d, s + 1));
                assert forall|q: int| o <= q < p implies !#[trigger] inked(d, q) by {}
                assert forall|q: int| o < q < p implies !#[trigger] blank_line_at(d, q) by {}
            } else {
                assert(word_landing(d, o) == s + 1);
            }
        } else {
            assert(d.cells[s] is Some);
            assert(inked(d, s));
        }
    }
}

/// `w` goes to the beginning of a word or of a blank line behind the cursor that
/// is the next one, and to the end of the text when there is none.
pub proof fn word_on_is_the_next_one(d: Doc, o: int, big: bool)
    requires
        d.wf(),
        d == newline_doc(d.cells),
        plain_blanks(d),
        d.at_boundary(o),
        0 <= o < d.len(),
    ensures
        ({
            let p = word_start_after(d, o, big);
            &&& o < p <= d.len()
            &&& p < d.len() ==> word_begins(d, p, big) || blank_line_at(d, p)
            &&& forall|q: int|
                o < q < p ==> !#[trigger] word_begins(d, q, big) && !blank_line_at(d, q)
        }),
{
    d.lemma_char_fits(o);
    let p = word_start_after(d, o, big);
    if inked(d, o) {
        let k = class_in(d, o, big)->0;
        let stop = outside_run(d, big, k);
        lemma_scanned(d, o, stop);
        let r = run_stop(d, o, big, k);
        assert(r > o) by {
            assert(!stop(o));
            if r == o {
                assert(stop(r));
            }
        }
        d.lemma_prev(r);
        let last = d.prev(r)->0;
        assert(!stop(last)) by {
            assert(last >= o) by {
                if last < o {
                    assert(char_fits(d.cells, last));
                    assert(d.cells[o] is None);
                }
            }
        }
        lemma_landing(d, r);
        assert forall|q: int| o < q < r implies !#[trigger] word_begins(d, q, big)
            && !blank_line_at(d, q) by {
            if d.char_at(q) is Some {
                d.lemma_prev(q);
                let b = d.prev(q)->0;
                assert(b >= o) by {
                    if b < o {
                        assert(char_fits(d.cells, b));
                        assert(d.cells[o] is None);
                    }
                }
                assert(!stop(q) && !stop(b));
                if inked(d, q) {
                    lemma_same_class(d, b, q, big);
                }
            }
            if blank_line_at(d, q) {
                lemma_start_behind_newline(d, q);
                assert(!stop(q - 1));
            }
        }
        assert(inked(d, last));
        assert forall|q: int| r <= q < p implies !#[trigger] word_begins(d, q, big)
            && !blank_line_at(d, q) by {
            assert(!inked(d, q));
            if q == r && blank_line_at(d, q) {
                lemma_start_behind_newline(d, q);
                assert(!stop(last));
                d.lemma_char_fits(q - 1);
                d.lemma_prev_of_next(q - 1);
            }
        }
        if p < d.len() && !blank_line_at(d, p) {
            if p == r {
                assert(stop(r));
                lemma_same_class(d, last, r, big);
            } else {
                d.lemma_prev(p);
            }
        }
    } else {
        assert(p == word_landing(d, o));
        lemma_landing(d, o);
        assert forall|q: int| o < q < p implies !#[trigger] word_begins(d, q, big)
            && !blank_line_at(d, q) by {
            assert(!inked(d, q));
        }
        if p < d.len() && !blank_line_at(d, p) {
            d.lemma_prev(p);
        }
    }
}

// ---- beginnings, back ----------------------------------------------------------------

proof fn lemma_run_start(d: Doc, o: int, big: bool, k: Class)
    requires
        d.wf(),
        d == newline_doc(d.cells),
        inked(d, o),
        class_in(d, o, big) == Some(k),
    ensures
        ({
            let p = scan_back(d, o, outside_run(d, big, k));
            &&& 0 <= p <= o
            &&& word_begins(d, p, big)
            &&& forall|q: int|
                p < q <= o ==> !#[trigger] word_begins(d, q, big) && !blank_line_at(d, q)
        }),
{
    let stop = outside_run(d, big, k);
    d.lemma_char_fits(o);
    lemma_scanned_back(d, o, stop);
    let p = scan_back(d, o, stop);
    assert(class_in(d, p, big) == Some(k)) by {
        if p < o {
            assert(d.char_at(p) is Some);
            assert(!stop(p));
        }
    }
    if p > 0 {
        d.lemma_prev(p);
        lemma_same_class(d, d.prev(p)->0, p, big);
    }
    assert forall|q: int| p < q <= o implies !#[trigger] word_begins(d, q, big) && !blank_line_at(
        d,
        q,
    ) by {
        if d.char_at(q) is Some {
            d.lemma_prev(q);
            let b = d.prev(q)->0;
            assert(b >= p) by {
                if b < p {
                    assert(char_fits(d.cells, b));
                    assert(d.cells[p] is None);
                }
            }
            assert(!stop(b));
            if q < o {
                assert(!stop(q));
            }
            if inked(d, q) {
                lemma_same_class(d, b, q, big);
            }
        }
        if blank_line_at(d, q) {
            lemma_start_behind_newline(d, q);
            assert(!stop(q - 1));
        }
    }
}

/// Back from behind a character that is not white space.
proof fn lemma_back_over_run(d: Doc, o: int, big: bool)
    requires
        d.wf(),
        d == newline_doc(d.cells),
        d.at_boundary(o),
        0 < o <= d.len(),
        inked(d, d.prev(o)->0),
    ensures
        0 <= word_back_from(d, o, big) < o,
        word_begins(d, word_back_from(d, o, big), big),
        forall|q: int| word_back_from(d, o, big) < q < o ==> !#[trigger] word_begins(d, q, big),
        forall|q: int| word_back_from(d, o, big) < q < o ==> !#[trigger] blank_line_at(d, q),
{
    d.lemma_prev(o);
    let p = d.prev(o)->0;
    let k = class_in(d, p, big)->0;
    let r = word_back_from(d, o, big);
    assert(white('\n'));
    assert(d.char_at(p) != Some('\n'));
    assert(r == scan_back(d, p, outside_run(d, big, k)));
    lemma_run_start(d, p, big, k);
    assert(char_fits(d.cells, p));
    assert forall|q: int| r < q < o implies !#[trigger] word_begins(d, q, big) by {
        if q > p {
            assert(d.char_at(q) is None);
        }
    }
    assert forall|q: int| r < q < o implies !#[trigger] blank_line_at(d, q) by {
        if q > p {
            if blank_line_at(d, q) {
                lemma_start_behind_newline(d, q);
                assert(q - 1 == p || d.char_at(q - 1) is None);
            }
        } else {
            assert(!word_begins(d, q, big));
        }
    }
}

proof fn lemma_back_from(d: Doc, o: int, big: bool)
    requires
        d.wf(),
        d == newline_doc(d.cells),
        d.at_boundary(o),
        0 <= o <= d.len(),
    ensures
        ({
            let p = word_back_from(d, o, big);
            &&& 0 <= p <= o
            &&& o > 0 ==> p < o
            &&& p == 0 || word_begins(d, p, big) || blank_line_at(d, p)
            &&& forall|q: int| p < q < o ==> !#[trigger] word_begins(d, q, big)
            &&& forall|q: int|
                p < q < o && #[trigger] blank_line_at(d, q) ==> d.line_of(q) == d.line_of(o)
        }),
    decreases o,
{
    if o > 0 {
        d.lemma_prev(o);
        let p = d.prev(o)->0;
        let r = word_back_from(d, o, big);
        assert(char_fits(d.cells, p));
        d.lemma_line_of(p);
        if d.char_at(p) == Some('\n') {
            lemma_line_behind(d, p);
            let i = d.line_of(p);
            d.lemma_line_bounds(i);
            if d.is_blank(i) {
                d.lemma_line_of_unique(d.line_start(i), i);
                assert(r == d.line_start(i));
                assert forall|q: int| r < q < o implies !#[trigger] word_begins(d, q, big) by {
                    d.lemma_line_of_unique(q, i);
                    a_blank_line_holds_only_blanks(d, i);
                    if q < p {
                        assert(spaced(d, q));
                    }
                }
                assert forall|q: int| r < q < o && #[trigger] blank_line_at(d, q) implies d.line_of(q)
                    == d.line_of(o) by {
                    d.lemma_line_of_unique(q, i);
                    a_blank_line_holds_only_blanks(d, i);
                    if q < p {
                        assert(spaced(d, q));
                    }
                }
                assert(blank_line_at(d, r));
            } else {
                lemma_back_from(d, p, big);
                assert forall|q: int| r < q < o implies !#[trigger] word_begins(d, q, big) by {
                    if q < p {
                        assert(!word_begins(d, q, big));
                        if blank_line_at(d, q) {
                            assert(d.line_of(q) == i);
                        }
                    } else {
                        assert(d.line_of(p) == i);
                    }
                }
                assert forall|q: int| r < q < o && #[trigger] blank_line_at(d, q) implies d.line_of(q)
                    == d.line_of(o) by {
                    if q < p {
                        assert(!word_begins(d, q, big));
                        if blank_line_at(d, q) {
                            assert(d.line_of(q) == i);
                        }
                    } else {
                        assert(d.line_of(p) == i);
                    }
                }
                assert(r == 0 || word_begins(d, r, big) || blank_line_at(d, r));
            }
        } else if inked(d, p) {
            lemma_back_over_run(d, o, big);
        } else {
            lemma_back_from(d, p, big);
            assert(r == word_back_from(d, p, big));
            assert(0 <= r <= p);
            assert(r == 0 || word_begins(d, r, big) || blank_line_at(d, r));
            let i = d.line_of(p);
            assert(d.line_of(o) == i) by {
                d.lemma_line_bounds(i);
                lemma_newlines_in_lines(d, i);
                if i + 1 < d.line_count() {
                    assert(p < d.line_end(i));
                    assert(o <= d.line_end(i)) by {
                        if o > d.line_end(i) {
                            assert(d.cells[d.line_end(i)] is None);
                        }
                    }
                }
                d.lemma_line_of_unique(o, i);
            }
            assert forall|q: int| r < q < o implies !#[trigger] word_begins(d, q, big) by {
                if q > p {
                    assert(d.char_at(q) is None);
                    if blank_line_at(d, q) {
                        lemma_start_behind_newline(d, q);
                        if q - 1 > p {
                            assert(d.char_at(q - 1) is None);
                        }
                    }
                } else if q == p {
                    assert(!inked(d, q));
                }
            }
            assert forall|q: int| r < q < o && #[trigger] blank_line_at(d, q) implies d.line_of(q)
                == d.line_of(o) by {
                if q > p {
                    assert(d.char_at(q) is None);
                    if blank_line_at(d, q) {
                        lemma_start_behind_newline(d, q);
                        if q - 1 > p {
                            assert(d.char_at(q - 1) is None);
                        }
                    }
                } else if q == p {
                    assert(!inked(d, q));
                }
            }
        }
    }
}

/// `b` goes to the beginning of a word or of a blank line before the cursor that
/// is the last one, and to the beginning of the text when there is none. The
/// blank line that the cursor itself is in does not count.
pub proof fn word_back_is_the_last_one(d: Doc, o: int, big: bool)
    requires
        d.wf(),
        d == newline_doc(d.cells),
        d.at_boundary(o),
        0 <= o <= d.len(),
    ensures
        ({
            let p = word_start_before(d, o, big);
            &&& 0 <= p <= o
            &&& o > 0 ==> p < o
            &&& p == 0 || word_begins(d, p, big) || blank_line_at(d, p)
            &&& forall|q: int| p < q < o ==> !#[trigger] word_begins(d, q, big)
            &&& forall|q: int|
                p < q < o && #[trigger] blank_line_at(d, q) ==> d.line_of(q) == d.line_of(o)
        }),
{
    lemma_back_from(d, o, big);
    if inked(d, o) {
        lemma_run_start(d, o, big, class_in(d, o, big)->0);
        let p = word_start_before(d, o, big);
        assert forall|q: int| p < q < o implies !#[trigger] word_begins(d, q, big) by {
        }
        assert forall|q: int| p < q < o && #[trigger] blank_line_at(d, q) implies d.line_of(q)
            == d.line_of(o) by {
            assert(!word_begins(d, q, big));
        }
    } else {
        assert(word_start_before(d, o, big) == word_back_from(d, o, big));
    }
}

} // verus!
