//! Where sentences begin.
use crate::cells::{char_fits, width};
use crate::chars::white;
use crate::doc::Doc;
use crate::object_laws::lemma_scanned;
use crate::word::{
    behind_blanks, ends_sentence, not_blank, sentence_after, sentence_back_from, sentence_before,
};
use vstd::prelude::*;

verus! {

/// A full stop, an exclamation mark or a question mark stands at `k`.
pub open spec fn full_stop(d: Doc, k: int) -> bool {
    d.char_at(k) == Some('.') || d.char_at(k) == Some('!') || d.char_at(k) == Some('?')
}

/// A character stands at `k` that is not white space.
pub open spec fn inked(d: Doc, k: int) -> bool {
    d.char_at(k) matches Some(c) && !white(c)
}

/// A sentence begins at `p`: a full stop stands at `t`, and only white space in
/// between.
pub open spec fn begins_sentence(d: Doc, t: int, p: int) -> bool {
    &&& t < p
    &&& full_stop(d, t)
    &&& inked(d, p)
    &&& forall|k: int| t < k < p ==> !#[trigger] inked(d, k)
}

proof fn lemma_behind_blanks(d: Doc, o: int)
    requires
        d.wf(),
        d.char_at(o) is Some,
    ensures
        ({
            let p = behind_blanks(d, o);
            &&& o < p <= d.len()
            &&& p == d.len() || inked(d, p)
            &&& d.at_boundary(p)
            &&& forall|k: int| o < k < p ==> !#[trigger] inked(d, k)
        }),
{
    d.lemma_char_fits(o);
    let n = o + width(d.char_at(o)->0);
    let stop = not_blank(d);
    lemma_scanned(d, n, stop);
    let p = behind_blanks(d, o);
    assert forall|k: int| o < k < p implies !#[trigger] inked(d, k) by {
        if k < n {
            assert(char_fits(d.cells, o));
        } else if d.char_at(k) is Some {
            assert(!stop(k));
        }
    }
}

/// `)` goes to the beginning of the sentence behind the first full stop at or
/// behind the cursor; without a sentence there, to the end of the text.
pub proof fn sentence_on_is_the_next_one(d: Doc, o: int) -> (t: int)
    requires
        d.wf(),
        d.at_boundary(o),
        0 <= o <= d.len(),
    ensures
        ({
            let p = sentence_after(d, o);
            &&& o <= p <= d.len()
            &&& p < d.len() ==> o <= t && begins_sentence(d, t, p) && forall|k: int|
                o <= k < t ==> !#[trigger] full_stop(d, k)
            &&& p == d.len() ==> forall|k: int, j: int|
                o <= k < j && #[trigger] full_stop(d, k) ==> !#[trigger] inked(d, j)
        }),
    decreases d.len() - o,
{
    d.lemma_char_fits(o);
    if let Some(c) = d.char_at(o) {
        let n = o + width(c);
        assert(char_fits(d.cells, o));
        lemma_behind_blanks(d, o);
        if full_stop(d, o) && behind_blanks(d, o) < d.len() {
            o
        } else {
            let t = sentence_on_is_the_next_one(d, n);
            let p = sentence_after(d, o);
            if p < d.len() {
                if full_stop(d, o) {
                    assert(inked(d, p));
                    assert(!inked(d, p));
                }
                assert forall|k: int| o <= k < t implies !#[trigger] full_stop(d, k) by {
                    if k < n && k > o {
                        assert(d.char_at(k) is None);
                    }
                }
            } else {
                assert forall|k: int, j: int|
                    o <= k < j && #[trigger] full_stop(d, k) implies !#[trigger] inked(d, j) by {
                    if k < n && k > o {
                        assert(d.char_at(k) is None);
                    }
                }
            }
            t
        }
    } else {
        o
    }
}

proof fn lemma_sentence_back(d: Doc, o: int, limit: int) -> (t: int)
    requires
        d.wf(),
        d.at_boundary(o),
        0 <= o <= limit <= d.len(),
        o < limit ==> forall|k: int, j: int|
            o <= k < j < limit && #[trigger] full_stop(d, k) ==> !#[trigger] inked(d, j),
    ensures
        ({
            let p = sentence_back_from(d, o, limit);
            &&& p == 0 || (begins_sentence(d, t, p) && p < limit)
            &&& 0 <= p
            &&& forall|k: int, j: int|
                p <= k < j < limit && #[trigger] full_stop(d, k) ==> !#[trigger] inked(d, j)
        }),
    decreases o,
{
    if o > 0 {
        d.lemma_prev(o);
        let p = d.prev(o)->0;
        assert(char_fits(d.cells, p));
        lemma_behind_blanks(d, p);
        let b = behind_blanks(d, p);
        if ends_sentence(d, p) && b < limit {
            assert forall|k: int, j: int|
                b <= k < j < limit && #[trigger] full_stop(d, k) implies !#[trigger] inked(
                d,
                j,
            ) by {}
            p
        } else {
            assert forall|k: int, j: int|
                p <= k < j < limit && #[trigger] full_stop(d, k) implies !#[trigger] inked(
                d,
                j,
            ) by {
                if p < k < o {
                    assert(d.char_at(k) is None);
                }
            }
            lemma_sentence_back(d, p, limit)
        }
    } else {
        0
    }
}

/// `(` goes to the last beginning of a sentence before the cursor, or to the
/// beginning of the text: behind it no sentence begins before the cursor.
pub proof fn sentence_back_is_the_last_one(d: Doc, o: int) -> (t: int)
    requires
        d.wf(),
        d.at_boundary(o),
        0 <= o <= d.len(),
    ensures
        ({
            let p = sentence_before(d, o);
            &&& 0 <= p
            &&& p == 0 || (begins_sentence(d, t, p) && p < o)
            &&& forall|k: int, j: int|
                p <= k < j < o && #[trigger] full_stop(d, k) ==> !#[trigger] inked(d, j)
        }),
{
    lemma_sentence_back(d, o, o)
}

} // verus!
