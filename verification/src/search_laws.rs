//! Which match a search goes to.
use crate::buffer::VimBuffer;
use crate::chars::white;
use crate::doc::Doc;
use crate::host::HostCall;
use crate::motions::{landing, Motion, MotionKind};
use crate::object_laws::{lemma_scanned, lemma_scanned_back};
use crate::search::{
    at_word, current_match, escaped, first_at, first_behind, is_meta, last_before, match_from,
    usable, word_near, MATCH_LIMIT,
};
use crate::state::Vim;
use crate::word::{class_in, class_of, outside_run, scan, scan_back, Class};
use vstd::prelude::*;

verus! {

proof fn lemma_first_behind(m: Seq<(usize, usize)>, i: int, o: int)
    requires
        0 <= i <= m.len(),
    ensures
        i <= first_behind(m, i, o) <= m.len(),
        forall|k: int| i <= k < first_behind(m, i, o) ==> (#[trigger] m[k]).0 <= o,
        first_behind(m, i, o) < m.len() ==> m[first_behind(m, i, o)].0 > o,
    decreases m.len() - i,
{
    if i < m.len() && m[i].0 <= o {
        lemma_first_behind(m, i + 1, o);
    }
}

proof fn lemma_last_before(m: Seq<(usize, usize)>, n: int, o: int)
    requires
        0 <= n <= m.len(),
    ensures
        -1 <= last_before(m, n, o) < n,
        forall|k: int| last_before(m, n, o) < k < n ==> (#[trigger] m[k]).0 >= o,
        last_before(m, n, o) >= 0 ==> m[last_before(m, n, o)].0 < o,
    decreases n,
{
    if n > 0 && m[n - 1].0 >= o {
        lemma_last_before(m, n - 1, o);
    }
}

/// A search goes to the first match that starts behind the cursor, or to the
/// first of all where none does; back, to the last that starts before it, or to
/// the last of all.
pub proof fn a_search_goes_to_the_nearest(m: Seq<(usize, usize)>, o: int)
    requires
        m.len() > 0,
    ensures
        ({
            let on = match_from(m, o, true, 1);
            let back = match_from(m, o, false, 1);
            &&& 0 <= on < m.len()
            &&& 0 <= back < m.len()
            &&& m[on].0 > o ==> forall|k: int| 0 <= k < on ==> (#[trigger] m[k]).0 <= o
            &&& m[on].0 <= o ==> on == 0 && forall|k: int|
                0 <= k < m.len() ==> (#[trigger] m[k]).0 <= o
            &&& m[back].0 < o ==> forall|k: int| back < k < m.len() ==> (#[trigger] m[k]).0 >= o
            &&& m[back].0 >= o ==> back == m.len() - 1 && forall|k: int|
                0 <= k < m.len() ==> (#[trigger] m[k]).0 >= o
        }),
{
    reveal(match_from);
    lemma_first_behind(m, 0, o);
    lemma_last_before(m, m.len() as int, o);
    assert(0int % (m.len() as int) == 0) by (nonlinear_arith)
        requires
            m.len() > 0,
    ;
}

/// A count goes on from match to match, around the ends of the text.
pub proof fn a_count_goes_from_match_to_match(m: Seq<(usize, usize)>, o: int, count: int)
    requires
        m.len() > 0,
        count >= 1,
    ensures
        ({
            let n = m.len() as int;
            let next = |i: int|
                if i + 1 < n {
                    i + 1
                } else {
                    0
                };
            let previous = |i: int|
                if i > 0 {
                    i - 1
                } else {
                    n - 1
                };
            &&& match_from(m, o, true, count + 1) == next(match_from(m, o, true, count))
            &&& match_from(m, o, false, count + 1) == previous(match_from(m, o, false, count))
        }),
{
    reveal(match_from);
    lemma_first_behind(m, 0, o);
    lemma_last_before(m, m.len() as int, o);
    let n = m.len() as int;
    let a = (count - 1) % n;
    let b = count % n;
    vstd::arithmetic::div_mod::lemma_fundamental_div_mod(count - 1, n);
    let q = (count - 1) / n;
    assert(0 <= a < n) by (nonlinear_arith)
        requires
            n > 0,
            a == (count - 1) % n,
    ;
    if a + 1 < n {
        assert(count == q * n + (a + 1)) by (nonlinear_arith)
            requires
                count - 1 == n * q + a,
        ;
        vstd::arithmetic::div_mod::lemma_fundamental_div_mod_converse(count, n, q, a + 1);
        assert(b == a + 1);
    } else {
        assert(count == (q + 1) * n + 0) by (nonlinear_arith)
            requires
                count - 1 == n * q + a,
                a + 1 == n,
        ;
        vstd::arithmetic::div_mod::lemma_fundamental_div_mod_converse(count, n, q + 1, 0);
        assert(b == 0);
    }
    if count == 1 {
        assert(0int % n == 0) by (nonlinear_arith)
            requires
                n > 0,
        ;
    }
}

/// `n` goes in the direction of the last search and `N` against it; they fail
/// when there is no match.
pub proof fn n_goes_with_the_search<B: VimBuffer>(
    v: Vim,
    d: Doc,
    seen: (usize, usize),
    same: bool,
    count: int,
)
    ensures
        ({
            let fresh = v.with_fresh_matches::<B>(d);
            let m = fresh.search.matches;
            let forward = if same {
                v.search.forward
            } else {
                !v.search.forward
            };
            let r = landing::<B>(v, d, seen, Motion::SearchNext { forward: same }, count);
            &&& v.search.pattern is None || m.len() == 0 ==> !r.moved && r.offset == v.cursor.offset
            &&& v.search.pattern is Some && m.len() > 0 ==> r.moved && r.kind
                == MotionKind::Exclusive && r.offset == m[match_from(
                m,
                v.cursor.offset as int,
                forward,
                count,
            )].0
        }),
{
    reveal(landing);
    reveal(Vim::with_fresh_matches);
}

/// Matches are looked for anew when the text has changed since, or when there is
/// none; else those found before are used.
pub proof fn matches_are_kept_while_they_hold<B: VimBuffer>(v: Vim, d: Doc, pattern: Seq<char>)
    requires
        v.search.pattern == Some(pattern),
    ensures
        v.search.generation != Some(v.edit_generation) || v.search.matches.len() == 0
            ==> v.with_fresh_matches::<B>(d).search.matches == v.matches_in::<B>(d, pattern),
        v.search.generation == Some(v.edit_generation) && v.search.matches.len() > 0
            ==> v.with_fresh_matches::<B>(d) == v,
        v.with_fresh_matches::<B>(d).search.pattern == Some(pattern),
        v.with_fresh_matches::<B>(d).search.forward == v.search.forward,
{
    reveal(Vim::with_fresh_matches);
}

/// Of what the pattern finds the matches that are not empty count, in order; all
/// of them where there are not more than the limit.
pub proof fn matches_that_are_not_empty_count(all: Seq<(usize, usize)>)
    ensures
        ({
            let full = all.filter(|m: (usize, usize)| m.0 != m.1);
            usable(all) == if full.len() <= MATCH_LIMIT {
                full
            } else {
                full.take(MATCH_LIMIT as int)
            }
        }),
    decreases all.len(),
{
    reveal(usable);
    reveal(Seq::filter);
    let nonempty = |m: (usize, usize)| m.0 != m.1;
    let full = all.filter(nonempty);
    if all.len() > 0 {
        matches_that_are_not_empty_count(all.drop_last());
        let before = all.drop_last().filter(nonempty);
        assert(full == if nonempty(all.last()) {
            before.push(all.last())
        } else {
            before
        });
        if full.len() > MATCH_LIMIT {
            assert(usable(all) =~= full.take(MATCH_LIMIT as int));
        } else {
            assert(usable(all) =~= full);
        }
    } else {
        assert(usable(all) =~= full);
    }
}

/// A text is escaped character by character: a backslash goes before each of
/// ``\ . + * ? ( ) | [ ] { } ^ $ # & - ~``, and all others stay.
pub proof fn escaping_goes_by_character(s: Seq<char>, c: char)
    ensures
        escaped(Seq::empty()) == Seq::<char>::empty(),
        "\\.+*?()|[]{}^$#&-~"@.contains(c) ==> escaped(s.push(c)) == escaped(s) + seq!['\\', c],
        !"\\.+*?()|[]{}^$#&-~"@.contains(c) ==> escaped(s.push(c)) == escaped(s) + seq![c],
{
    reveal_strlit("\\.+*?()|[]{}^$#&-~");
    let all = "\\.+*?()|[]{}^$#&-~"@;
    assert(s.push(c).drop_last() =~= s);
    assert(is_meta(c) == all.contains(c)) by {
        if all.contains(c) {
            let i = choose|i: int| 0 <= i < all.len() && all[i] == c;
            assert(all[i] == c);
        }
        assert(all[0] == '\\' && all[1] == '.' && all[2] == '+' && all[3] == '*' && all[4] == '?'
            && all[5] == '(' && all[6] == ')' && all[7] == '|' && all[8] == '[' && all[9] == ']'
            && all[10] == '{' && all[11] == '}' && all[12] == '^' && all[13] == '$' && all[14]
            == '#' && all[15] == '&' && all[16] == '-' && all[17] == '~');
    }
    assert(escaped(s).push('\\').push(c) =~= escaped(s) + seq!['\\', c]);
    assert(escaped(s).push(c) =~= escaped(s) + seq![c]);
}

/// A letter, a digit or an underscore stands at `k`.
pub open spec fn word_at(d: Doc, k: int) -> bool {
    d.char_at(k) matches Some(c) && class_of(c) == Class::Word
}

/// `*` and `#` look for the word that the cursor is on, all of it, or else for
/// the next one on its line; there is none where no word follows on the line.
pub proof fn the_word_looked_for(d: Doc, o: int)
    requires
        d.wf(),
        d.at_boundary(o),
        0 <= o <= d.line_end(d.line_of(o)),
    ensures
        ({
            let end = d.line_end(d.line_of(o));
            match word_near(d, o) {
                Some((a, b)) => {
                    &&& 0 <= a < b <= d.len()
                    &&& d.at_boundary(a) && d.at_boundary(b)
                    &&& forall|k: int| a <= k < b && #[trigger] d.char_at(k) is Some ==> word_at(
                        d,
                        k,
                    )
                    &&& b < d.len() ==> !word_at(d, b)
                    &&& word_at(d, o) ==> a <= o < b && (a > 0 ==> !word_at(d, d.prev(a)->0))
                    &&& !word_at(d, o) ==> o < a < end && forall|k: int|
                        o <= k < a ==> !#[trigger] word_at(d, k)
                },
                None => forall|k: int| o <= k < end ==> !#[trigger] word_at(d, k),
            }
        }),
{
    let line = d.line_of(o);
    let end = d.line_end(line);
    d.lemma_line_of(o);
    d.lemma_line_bounds(line);
    assert(white('\n'));
    assert forall|k: int| word_at(d, k) == (class_in(d, k, false) == Some(Class::Word)) by {}
    let outside = outside_run(d, false, Class::Word);
    let stop = at_word(d, end);
    lemma_scanned(d, o, stop);
    let next = scan(d, o, stop);
    assert forall|k: int| o <= k < next && k < end implies !#[trigger] word_at(d, k) by {
        if d.char_at(k) is Some {
            assert(!stop(k));
        }
    }
    if word_at(d, o) {
        lemma_scanned_back(d, o, outside);
        lemma_scanned(d, o, outside);
        let (a, b) = (scan_back(d, o, outside), scan(d, o, outside));
        assert(!outside(o));
        assert(b > o) by {
            if b == o {
                assert(outside(b));
            }
        }
        assert forall|k: int| a <= k < b && #[trigger] d.char_at(k) is Some implies word_at(
            d,
            k,
        ) by {
            assert(!outside(k));
        }
    } else if next < end && word_at(d, next) {
        lemma_scanned(d, next, outside);
        let b = scan(d, next, outside);
        assert(!outside(next));
        assert(b > next) by {
            if b == next {
                assert(outside(b));
            }
        }
        assert forall|k: int| next <= k < b && #[trigger] d.char_at(k) is Some implies word_at(
            d,
            k,
        ) by {
            assert(!outside(k));
        }
        if next == o {
            assert(word_at(d, o));
        }
    } else {
        if next < end {
            assert(stop(next));
        }
    }
}

/// `*` looks for the word as a whole and forward, `#` back.
pub proof fn star_looks_for_the_whole_word<B: VimBuffer>(v: Vim, d: Doc, forward: bool)
    requires
        d.wf(),
        d.at_boundary(v.cursor.offset as int),
        v.cursor.offset <= d.line_end(d.line_of(v.cursor.offset as int)),
        word_near(d, v.cursor.offset as int) is Some,
    ensures
        ({
            let (a, b) = word_near(d, v.cursor.offset as int)->0;
            let after = v.with_word_pattern::<B>(d, forward);
            &&& after.search.pattern == Some(
                seq!['\\', 'b'] + escaped(d.slice(a, b)) + seq!['\\', 'b'],
            )
            &&& after.search.forward == forward
        }),
{
    reveal(Vim::with_word_pattern);
    reveal(Vim::with_pattern);
    let (a, b) = word_near(d, v.cursor.offset as int)->0;
    the_word_looked_for(d, v.cursor.offset as int);
    B::piece_exact(d, a, b);
}

proof fn lemma_first_at(m: Seq<(usize, usize)>, i: int, o: int)
    requires
        0 <= i <= m.len(),
    ensures
        i <= first_at(m, i, o) <= m.len(),
        forall|k: int| i <= k < first_at(m, i, o) ==> (#[trigger] m[k]).0 < o,
        first_at(m, i, o) < m.len() ==> m[first_at(m, i, o)].0 >= o,
    decreases m.len() - i,
{
    if i < m.len() && m[i].0 < o {
        lemma_first_at(m, i + 1, o);
    }
}

/// When the matches are found anew the one that is marked is the first at or
/// behind the cursor, or the last of all.
pub proof fn the_match_that_is_marked(v: Vim, m: Seq<(usize, usize)>)
    requires
        0 < m.len() <= usize::MAX,
    ensures
        ({
            let o = v.cursor.offset as int;
            let after = v.with_matches(m);
            let i = after.search.index->0 as int;
            &&& after.search.matches == m
            &&& after.search.index is Some
            &&& 0 <= i < m.len()
            &&& m[i].0 >= o ==> forall|k: int| 0 <= k < i ==> (#[trigger] m[k]).0 < o
            &&& m[i].0 < o ==> i == m.len() - 1 && forall|k: int|
                0 <= k < m.len() ==> (#[trigger] m[k]).0 < o
            &&& after.told == v.told.push(HostCall::Highlights(m, Some(m[i])))
        }),
{
    reveal(Vim::with_matches);
    reveal(current_match);
    lemma_first_at(m, 0, v.cursor.offset as int);
}

} // verus!
