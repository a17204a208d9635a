//! Texts held byte by byte: building them, their lines and their boundaries.
use crate::cells::{
    boundary, cells, char_cells, char_fits, char_len, chars_in, lemma_cells_well_formed,
    lemma_chars_in_concat, well_formed, width,
};
use crate::doc::{back_to_start, last_start, lemma_back_to_start, lemma_last_start, Doc};
use vstd::prelude::*;

verus! {

// ---- building ------------------------------------------------------------------------------------

/// Append the cells of one character.
pub(crate) fn push_char(t: &mut Vec<Option<char>>, c: char)
    ensures
        final(t)@ == old(t)@ + char_cells(c),
{
    let ghost before = t@;
    t.push(Some(c));
    let n = char_len(c);
    let mut i: usize = 1;
    while i < n
        invariant
            1 <= i <= n,
            n == width(c),
            t@ == before + char_cells(c).take(i as int),
        decreases n - i,
    {
        t.push(None);
        i = i + 1;
        proof {
            assert(char_cells(c).take(i as int) =~= char_cells(c).take(i - 1).push(None));
        }
    }
    proof {
        assert(char_cells(c).take(n as int) =~= char_cells(c));
    }
}

/// Append the cells of a string.
pub(crate) fn push_text(t: &mut Vec<Option<char>>, s: &str)
    ensures
        final(t)@ == old(t)@ + cells(s@),
{
    let ghost before = t@;
    let chars = crate::strs::chars_of(s);
    let mut i: usize = 0;
    proof {
        assert(s@.take(0) =~= Seq::empty());
        assert(before + cells(s@.take(0)) =~= before);
    }
    while i < chars.len()
        invariant
            i <= chars.len(),
            chars@ == s@,
            t@ == before + cells(s@.take(i as int)),
        decreases chars.len() - i,
    {
        push_char(t, chars[i]);
        i = i + 1;
        proof {
            assert(s@.take(i as int).drop_last() =~= s@.take(i - 1));
            assert(t@ =~= before + cells(s@.take(i as int)));
        }
    }
    proof {
        assert(s@.take(i as int) =~= s@);
    }
}

/// The cells of a string.
pub fn cells_of(s: &str) -> (t: Vec<Option<char>>)
    ensures
        t@ == cells(s@),
        well_formed(t@),
{
    let mut t: Vec<Option<char>> = Vec::new();
    push_text(&mut t, s);
    proof {
        lemma_cells_well_formed(s@);
        assert(t@ =~= cells(s@));
    }
    t
}

/// The characters between two offsets.
pub(crate) fn copy_out(t: &Vec<Option<char>>, a: usize, b: usize) -> (s: String)
    requires
        a <= b <= t.len(),
    ensures
        s@ == chars_in(t@.subrange(a as int, b as int)),
{
    let mut s = String::new();
    let mut i: usize = a;
    proof {
        assert(t@.subrange(a as int, a as int) =~= Seq::empty());
        assert(s@ =~= Seq::empty());
    }
    while i < b
        invariant
            a <= i <= b <= t.len(),
            s@ == chars_in(t@.subrange(a as int, i as int)),
        decreases b - i,
    {
        proof {
            assert(t@.subrange(a as int, i + 1).drop_last() =~= t@.subrange(a as int, i as int));
        }
        if let Some(c) = t[i] {
            s.push(c);
        }
        i = i + 1;
    }
    s
}

/// A text is the encoding of the characters that start in it.
pub proof fn lemma_cells_of_chars(t: Seq<Option<char>>)
    requires
        well_formed(t),
    ensures
        cells(chars_in(t)) == t,
    decreases t.len(),
{
    if t.len() == 0 {
        assert(chars_in(t) =~= Seq::empty());
        assert(cells(chars_in(t)) =~= t);
    } else {
        let p = back_to_start(t, t.len() - 1);
        lemma_back_to_start(t, t.len() - 1);
        let c = t[p]->0;
        assert(char_fits(t, p));
        let head = t.take(p);
        assert(p + width(c) == t.len()) by {
            if p + width(c) < t.len() {
                assert(t[p + width(c)] is Some);
            }
        }
        assert(t =~= head + char_cells(c)) by {
            assert forall|k: int| p <= k < t.len() implies t[k] == #[trigger] char_cells(c)[k
                - p] by {
                if k > p {
                    assert(t[k] is None);
                }
            }
        }
        assert(well_formed(head)) by {
            assert forall|o: int| 0 <= o < head.len() implies #[trigger] char_fits(head, o) by {
                assert(char_fits(t, o));
                if let Some(e) = head[o] {
                    if o + width(e) > p {
                        assert(t[p] is None);
                    }
                    assert forall|k: int| o < k < o + width(e) implies #[trigger] head[k] is None by {
                        assert(t[k] is None);
                    }
                }
            }
            assert(boundary(t, 0));
        }
        lemma_cells_of_chars(head);
        lemma_chars_in_concat(head, char_cells(c));
        let one = seq![c];
        assert(one.drop_last() =~= Seq::empty());
        assert(cells(one.drop_last()) =~= Seq::empty());
        assert(cells(one) =~= char_cells(c));
        crate::cells::lemma_chars_in_cells(one);
        let s = chars_in(t);
        assert(s =~= chars_in(head).push(c));
        assert(s.drop_last() =~= chars_in(head));
    }
}

/// A range of whole characters is a text of its own.
pub proof fn lemma_range_well_formed(t: Seq<Option<char>>, a: int, b: int)
    requires
        well_formed(t),
        0 <= a <= b <= t.len(),
        boundary(t, a),
        boundary(t, b),
    ensures
        well_formed(t.subrange(a, b)),
{
    let r = t.subrange(a, b);
    assert forall|o: int| 0 <= o < r.len() implies #[trigger] char_fits(r, o) by {
        assert(char_fits(t, a + o));
        if let Some(c) = r[o] {
            if a + o + width(c) > b {
                assert(t[b] is None);
            }
            assert forall|k: int| o < k < o + width(c) implies #[trigger] r[k] is None by {
                assert(t[a + k] is None);
            }
        }
    }
}

// ---- boundaries ----------------------------------------------------------------------------------

/// The largest boundary at or below `i`.
pub open spec fn floor_in(t: Seq<Option<char>>, i: int) -> int {
    if i >= t.len() {
        t.len() as int
    } else {
        back_to_start(t, i)
    }
}

/// The smallest boundary at or above `i`; `i` itself beyond the text.
pub open spec fn ceil_in(t: Seq<Option<char>>, i: int) -> int
    decreases t.len() - i,
{
    if i >= t.len() || i < 0 || t[i] is Some {
        i
    } else {
        ceil_in(t, i + 1)
    }
}

pub proof fn lemma_floor_in(t: Seq<Option<char>>, i: int)
    requires
        well_formed(t),
        0 <= i,
    ensures
        0 <= floor_in(t, i) <= i,
        floor_in(t, i) <= t.len(),
        boundary(t, floor_in(t, i)),
        boundary(t, i) ==> floor_in(t, i) == i,
        forall|k: int| floor_in(t, i) < k <= i && k <= t.len() ==> !#[trigger] boundary(t, k),
{
    if i < t.len() {
        lemma_back_to_start(t, i);
    }
}

pub proof fn lemma_ceil_in(t: Seq<Option<char>>, i: int)
    requires
        0 <= i,
    ensures
        i <= ceil_in(t, i),
        i <= t.len() ==> ceil_in(t, i) <= t.len(),
        i <= t.len() ==> boundary(t, ceil_in(t, i)),
        boundary(t, i) ==> ceil_in(t, i) == i,
        i > t.len() ==> ceil_in(t, i) == i,
        forall|k: int| i <= k < ceil_in(t, i) ==> !#[trigger] boundary(t, k),
    decreases t.len() - i,
{
    if i < t.len() && t[i] is None {
        lemma_ceil_in(t, i + 1);
    }
}

pub(crate) fn floor_at(t: &Vec<Option<char>>, i: usize) -> (r: usize)
    requires
        well_formed(t@),
    ensures
        r == floor_in(t@, i as int),
        r <= t.len(),
        r <= i,
        boundary(t@, r as int),
{
    proof {
        lemma_floor_in(t@, i as int);
    }
    if i >= t.len() {
        return t.len();
    }
    let mut k: usize = i;
    while k > 0 && t[k].is_none()
        invariant
            k <= i < t.len(),
            back_to_start(t@, k as int) == back_to_start(t@, i as int),
        decreases k,
    {
        k = k - 1;
    }
    k
}

pub(crate) fn ceil_at(t: &Vec<Option<char>>, i: usize) -> (r: usize)
    ensures
        r == ceil_in(t@, i as int),
        i <= r,
        i <= t.len() ==> r <= t.len() && boundary(t@, r as int),
{
    proof {
        lemma_ceil_in(t@, i as int);
    }
    let mut k: usize = i;
    while k < t.len() && t[k].is_none()
        invariant
            i <= k,
            k <= t.len() || k == i,
            ceil_in(t@, k as int) == ceil_in(t@, i as int),
        decreases t.len() - k,
    {
        k = k + 1;
    }
    k
}

/// The start of the character that ends at `o`.
pub(crate) fn char_before(t: &Vec<Option<char>>, o: usize) -> (p: Option<usize>)
    requires
        well_formed(t@),
    ensures
        p is Some == (0 < o <= t.len() && boundary(t@, o as int)),
        p matches Some(v) ==> v == back_to_start(t@, o - 1),
{
    if o == 0 || o > t.len() {
        return None;
    }
    if o < t.len() && t[o].is_none() {
        return None;
    }
    Some(floor_at(t, o - 1))
}

// ---- lines ---------------------------------------------------------------------------------------

/// The offsets up to `k` at which a line starts: the beginning, and behind
/// each newline.
pub open spec fn starts_up_to(t: Seq<Option<char>>, k: int) -> Seq<int>
    decreases k,
{
    if k <= 0 {
        seq![0]
    } else if t[k - 1] == Some('\n') {
        starts_up_to(t, k - 1).push(k)
    } else {
        starts_up_to(t, k - 1)
    }
}

/// A text whose lines are what newlines separate.
pub open spec fn newline_doc(t: Seq<Option<char>>) -> Doc {
    Doc { cells: t, starts: starts_up_to(t, t.len() as int) }
}

/// Offsets as numbers.
pub open spec fn offsets(v: Seq<usize>) -> Seq<int> {
    v.map_values(|o: usize| o as int)
}

pub proof fn lemma_starts_up_to(t: Seq<Option<char>>, k: int)
    requires
        well_formed(t),
        0 <= k <= t.len(),
    ensures
        1 <= starts_up_to(t, k).len() <= k + 1,
        starts_up_to(t, k)[0] == 0,
        forall|i: int|
            0 <= i < starts_up_to(t, k).len() ==> 0 <= #[trigger] starts_up_to(t, k)[i] <= k
                && boundary(t, starts_up_to(t, k)[i]),
        forall|i: int, j: int|
            0 <= i < j < starts_up_to(t, k).len() ==> #[trigger] starts_up_to(t, k)[i]
                < #[trigger] starts_up_to(t, k)[j],
        forall|i: int|
            0 < i < starts_up_to(t, k).len() ==> t[#[trigger] starts_up_to(t, k)[i] - 1] == Some(
                '\n',
            ),
    decreases k,
{
    if k > 0 {
        lemma_starts_up_to(t, k - 1);
        assert(char_fits(t, k - 1));
    }
}

/// The lines of a text of a size that fits.
pub proof fn lemma_newline_doc(t: Seq<Option<char>>)
    requires
        well_formed(t),
        t.len() <= usize::MAX,
        starts_up_to(t, t.len() as int).len() <= usize::MAX,
    ensures
        newline_doc(t).wf(),
{
    lemma_starts_up_to(t, t.len() as int);
}

/// Where the lines of a text start.
pub(crate) fn line_starts(t: &Vec<Option<char>>) -> (v: Vec<usize>)
    ensures
        offsets(v@) == starts_up_to(t@, t.len() as int),
{
    let mut v: Vec<usize> = Vec::new();
    v.push(0);
    let mut i: usize = 0;
    proof {
        assert(offsets(v@) =~= seq![0int]);
    }
    while i < t.len()
        invariant
            i <= t.len(),
            offsets(v@) == starts_up_to(t@, i as int),
        decreases t.len() - i,
    {
        let ends = match t[i] {
            Some(c) => c == '\n',
            None => false,
        };
        i = i + 1;
        if ends {
            let ghost before = v@;
            v.push(i);
            proof {
                assert(offsets(v@) =~= offsets(before).push(i as int));
            }
        }
    }
    v
}

/// The last line that starts at or before `o` is the one the next of which
/// starts behind it.
pub proof fn lemma_last_start_is(starts: Seq<int>, o: int, k: int, i: int)
    requires
        0 <= i < k <= starts.len(),
        starts[0] <= o,
        starts[i] <= o,
        i + 1 < k ==> starts[i + 1] > o,
        forall|a: int, b: int|
            0 <= a < b < starts.len() ==> #[trigger] starts[a] < #[trigger] starts[b],
    ensures
        last_start(starts, o, k) == i,
{
    lemma_last_start(starts, o, k);
    let j = last_start(starts, o, k);
    if j < i {
        assert(j + 1 < i ==> starts[j + 1] < starts[i]);
    } else if i < j {
        assert(i + 1 < j ==> starts[i + 1] < starts[j]);
    }
}

/// The line that holds `o`, among lines that start where `starts` says.
pub(crate) fn line_holding(starts: &Vec<usize>, o: usize) -> (l: usize)
    requires
        starts.len() > 0,
        starts@[0] == 0,
        forall|a: int, b: int|
            0 <= a < b < starts.len() ==> #[trigger] starts@[a] < #[trigger] starts@[b],
    ensures
        l == last_start(offsets(starts@), o as int, starts.len() as int),
        l < starts.len(),
{
    let mut lo: usize = 0;
    let mut hi: usize = starts.len();
    while hi - lo > 1
        invariant
            lo < hi <= starts.len(),
            starts@[lo as int] <= o,
            hi < starts.len() ==> starts@[hi as int] > o,
        decreases hi - lo,
    {
        let mid: usize = lo + (hi - lo) / 2;
        if starts[mid] <= o {
            lo = mid;
        } else {
            hi = mid;
        }
    }
    proof {
        let s = offsets(starts@);
        assert forall|a: int, b: int| 0 <= a < b < s.len() implies #[trigger] s[a]
            < #[trigger] s[b] by {
            assert(starts@[a] < starts@[b]);
        }
        assert(s[lo as int] == starts@[lo as int]);
        assert(s[0] == 0);
        if lo + 1 < starts.len() {
            assert(s[lo + 1] == starts@[lo + 1]);
        }
        lemma_last_start_is(s, o as int, s.len() as int, lo as int);
    }
    lo
}

/// `d`, or an empty text where `d` is no text.
pub open spec fn sound(d: Doc) -> Doc {
    if d.wf() {
        d
    } else {
        Doc { cells: Seq::empty(), starts: seq![0] }
    }
}

pub proof fn lemma_sound(d: Doc)
    ensures
        sound(d).wf(),
{
}

// ---- UTF-16 --------------------------------------------------------------------------------------

/// How many UTF-16 code units a character takes up.
pub open spec fn units(c: char) -> int {
    if (c as u32) < 0x10000 {
        1
    } else {
        2
    }
}

/// The UTF-16 code units of the characters that start before `o`.
pub open spec fn units_before(t: Seq<Option<char>>, o: int) -> int
    decreases o,
{
    if o <= 0 {
        0
    } else {
        units_before(t, o - 1) + match t[o - 1] {
            Some(c) => units(c),
            None => 0,
        }
    }
}

pub(crate) fn char_units(c: char) -> (n: usize)
    ensures
        n == units(c),
{
    if (c as u32) < 0x10000 {
        1
    } else {
        2
    }
}

/// There are no more code units than bytes.
pub proof fn lemma_units_before(t: Seq<Option<char>>, o: int)
    requires
        well_formed(t),
        0 <= o <= t.len(),
        boundary(t, o),
    ensures
        0 <= units_before(t, o) <= o,
    decreases o,
{
    if o > 0 {
        let p = back_to_start(t, o - 1);
        lemma_back_to_start(t, o - 1);
        assert(char_fits(t, p));
        let c = t[p]->0;
        if p + width(c) < o {
            assert(t[p + width(c)] is Some);
        } else if p + width(c) > o {
            assert(t[o] is None);
        }
        lemma_units_before(t, p);
        lemma_units_within(t, p, o);
    }
}

/// Bytes that continue a character add no code unit.
pub proof fn lemma_units_within(t: Seq<Option<char>>, p: int, o: int)
    requires
        0 <= p < o <= t.len(),
        t[p] is Some,
        forall|k: int| p < k < o ==> #[trigger] t[k] is None,
    ensures
        units_before(t, o) == units_before(t, p) + units(t[p]->0),
    decreases o - p,
{
    if o > p + 1 {
        lemma_units_within(t, p, o - 1);
        assert(t[o - 1] is None);
    }
}

/// More bytes hold no fewer code units.
pub proof fn lemma_units_monotone(t: Seq<Option<char>>, a: int, b: int)
    requires
        0 <= a <= b <= t.len(),
    ensures
        units_before(t, a) <= units_before(t, b),
        a < b && t[a] is Some ==> units_before(t, a) < units_before(t, b),
    decreases b - a,
{
    if a < b {
        lemma_units_monotone(t, a, b - 1);
    }
}

/// The last boundary at or below `o` with at most `u` code units before it.
pub open spec fn byte_of_units(t: Seq<Option<char>>, u: int, o: int) -> int
    decreases o,
{
    if o <= 0 {
        0
    } else if boundary(t, o) && units_before(t, o) <= u {
        o
    } else {
        byte_of_units(t, u, o - 1)
    }
}

/// The boundary whose character holds a code unit is the last one with no
/// more code units before it.
pub proof fn lemma_byte_of_units(t: Seq<Option<char>>, u: int, b: int, o: int)
    requires
        0 <= b <= o <= t.len(),
        0 <= u,
        boundary(t, b),
        units_before(t, b) <= u,
        b < t.len() ==> u < units_before(t, b) + units(t[b]->0),
    ensures
        byte_of_units(t, u, o) == b,
    decreases o,
{
    if o > b {
        if boundary(t, o) {
            lemma_units_step(t, b, o);
        }
        lemma_byte_of_units(t, u, b, o - 1);
    }
}

/// Behind a character there are its code units more.
pub proof fn lemma_units_step(t: Seq<Option<char>>, a: int, b: int)
    requires
        0 <= a < b <= t.len(),
        t[a] is Some,
    ensures
        units_before(t, b) >= units_before(t, a) + units(t[a]->0),
    decreases b - a,
{
    if b > a + 1 {
        lemma_units_step(t, a, b - 1);
    }
}

/// Byte offsets of boundaries come back from their UTF-16 offsets.
pub proof fn boundaries_come_back_from_utf16(t: Seq<Option<char>>, b: int)
    requires
        0 <= b <= t.len(),
        boundary(t, b),
    ensures
        byte_of_units(t, units_before(t, b), t.len() as int) == b,
{
    lemma_units_monotone(t, 0, b);
    lemma_byte_of_units(t, units_before(t, b), b, t.len() as int);
}

} // verus!
