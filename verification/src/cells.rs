//! Text as the engine sees it: a sequence indexed by UTF-8 byte offset.
//!
//! Position `o` of a text holds `Some(c)` when the encoding of `c` starts at
//! byte `o`, and `None` when byte `o` continues a character. All offsets of
//! the library index such sequences directly.
use vstd::prelude::*;

verus! {

/// Number of bytes in the UTF-8 encoding of `c`.
pub open spec fn width(c: char) -> int {
    let v = c as u32;
    if v < 0x80 {
        1
    } else if v < 0x800 {
        2
    } else if v < 0x10000 {
        3
    } else {
        4
    }
}

/// The cells of one character: its start, then its continuation bytes.
pub open spec fn char_cells(c: char) -> Seq<Option<char>> {
    Seq::new(width(c) as nat, |i: int| if i == 0 { Some(c) } else { None })
}

/// The cells of a string.
pub open spec fn cells(s: Seq<char>) -> Seq<Option<char>>
    decreases s.len(),
{
    if s.len() == 0 {
        Seq::empty()
    } else {
        cells(s.drop_last()) + char_cells(s.last())
    }
}

/// The characters that start within `t`, in order.
pub open spec fn chars_in(t: Seq<Option<char>>) -> Seq<char>
    decreases t.len(),
{
    if t.len() == 0 {
        Seq::empty()
    } else {
        match t.last() {
            Some(c) => chars_in(t.drop_last()).push(c),
            None => chars_in(t.drop_last()),
        }
    }
}

/// `o` separates two characters of `t`, or is one of its ends.
pub open spec fn boundary(t: Seq<Option<char>>, o: int) -> bool {
    o == t.len() || (0 <= o < t.len() && t[o] is Some)
}

/// A character starting at `o` is followed by exactly its continuation bytes.
pub open spec fn char_fits(t: Seq<Option<char>>, o: int) -> bool {
    t[o] matches Some(c) ==> {
        &&& o + width(c) <= t.len()
        &&& boundary(t, o + width(c))
        &&& forall|k: int| o < k < o + width(c) ==> #[trigger] t[k] is None
    }
}

/// `t` is the encoding of some string.
pub open spec fn well_formed(t: Seq<Option<char>>) -> bool {
    &&& boundary(t, 0)
    &&& forall|o: int| 0 <= o < t.len() ==> #[trigger] char_fits(t, o)
}

/// The byte length of `c`, as `char::len_utf8` gives it.
pub fn char_len(c: char) -> (n: usize)
    ensures
        n == width(c),
        1 <= n <= 4,
{
    let v = c as u32;
    if v < 0x80 {
        1
    } else if v < 0x800 {
        2
    } else if v < 0x10000 {
        3
    } else {
        4
    }
}

pub proof fn lemma_cells_well_formed(s: Seq<char>)
    ensures
        well_formed(cells(s)),
    decreases s.len(),
{
    if s.len() > 0 {
        lemma_cells_well_formed(s.drop_last());
        let a = cells(s.drop_last());
        let b = char_cells(s.last());
        let t = cells(s);
        assert(t =~= a + b);
        assert forall|o: int| 0 <= o < t.len() implies #[trigger] char_fits(t, o) by {
            if o < a.len() {
                assert(char_fits(a, o));
                assert(t[o] == a[o]);
                if let Some(c) = t[o] {
                    assert forall|k: int| o < k < o + width(c) implies #[trigger] t[k] is None by {
                        assert(a[k] is None);
                    }
                    if o + width(c) < a.len() {
                        assert(t[o + width(c)] == a[o + width(c)]);
                    }
                }
            } else {
                assert(t[o] == b[o - a.len()]);
                if let Some(c) = t[o] {
                    assert(o == a.len());
                    assert forall|k: int| o < k < o + width(c) implies #[trigger] t[k] is None by {
                        assert(t[k] == b[k - a.len()]);
                    }
                }
            }
        }
        if a.len() == 0 {
            assert(t[0] == b[0]);
        } else {
            assert(t[0] == a[0]);
        }
    }
}

pub proof fn lemma_chars_in_concat(a: Seq<Option<char>>, b: Seq<Option<char>>)
    ensures
        chars_in(a + b) == chars_in(a) + chars_in(b),
    decreases b.len(),
{
    if b.len() == 0 {
        assert(a + b =~= a);
        assert(chars_in(b) =~= Seq::<char>::empty());
    } else {
        lemma_chars_in_concat(a, b.drop_last());
        assert((a + b).drop_last() =~= a + b.drop_last());
        assert((a + b).last() == b.last());
    }
}

pub proof fn lemma_chars_in_cells(s: Seq<char>)
    ensures
        chars_in(cells(s)) == s,
    decreases s.len(),
{
    if s.len() > 0 {
        lemma_chars_in_cells(s.drop_last());
        let c = s.last();
        lemma_chars_in_concat(cells(s.drop_last()), char_cells(c));
        lemma_chars_in_char(c);
        assert(s =~= s.drop_last().push(c));
    }
}

proof fn lemma_chars_in_char(c: char)
    ensures
        chars_in(char_cells(c)) == seq![c],
{
    let w = width(c);
    let t = char_cells(c);
    reveal_with_fuel(chars_in, 5);
    assert(t.take(1) =~= seq![Some(c)]);
    assert(chars_in(t.take(1)) =~= seq![c]);
    assert(t.take(w) =~= t);
    if w >= 2 {
        assert(t.take(2).drop_last() =~= t.take(1));
        assert(t.take(2).last() is None);
    }
    if w >= 3 {
        assert(t.take(3).drop_last() =~= t.take(2));
        assert(t.take(3).last() is None);
    }
    if w >= 4 {
        assert(t.take(4).drop_last() =~= t.take(3));
        assert(t.take(4).last() is None);
    }
}

pub proof fn lemma_cells_concat(a: Seq<char>, b: Seq<char>)
    ensures
        cells(a + b) == cells(a) + cells(b),
    decreases b.len(),
{
    if b.len() == 0 {
        assert(a + b =~= a);
        assert(cells(b) =~= Seq::<Option<char>>::empty());
    } else {
        lemma_cells_concat(a, b.drop_last());
        assert((a + b).drop_last() =~= a + b.drop_last());
        assert((a + b).last() == b.last());
        assert(cells(a) + (cells(b.drop_last()) + char_cells(b.last())) =~= (cells(a) + cells(
            b.drop_last(),
        )) + char_cells(b.last()));
    }
}

} // verus!
