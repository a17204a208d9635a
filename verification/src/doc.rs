//! The mathematical model of a buffer: its text and its line table.
use crate::cells::{boundary, char_fits, chars_in, well_formed, width};
use vstd::prelude::*;

verus! {

/// An offset of the model. Code outside of proofs can name it, but never holds
/// one.
pub type Offset = int;

/// A text of the model.
pub type Chars = Seq<char>;

/// A text of the model, byte by byte.
pub type Cells = Seq<Option<char>>;

/// A text together with the offsets at which its lines start.
#[verifier::ext_equal]
pub struct Doc {
    pub cells: Seq<Option<char>>,
    pub starts: Seq<int>,
}

/// The index below `k` of the last line that starts at or before `o`.
pub open spec fn last_start(starts: Seq<int>, o: int, k: int) -> int
    decreases k,
{
    if k <= 1 {
        0
    } else if starts[k - 1] <= o {
        k - 1
    } else {
        last_start(starts, o, k - 1)
    }
}

/// The largest offset at or below `o` at which a character starts.
pub open spec fn back_to_start(t: Seq<Option<char>>, o: int) -> int
    decreases o,
{
    if o <= 0 || o >= t.len() || t[o] is Some {
        o
    } else {
        back_to_start(t, o - 1)
    }
}

pub open spec fn min(a: int, b: int) -> int {
    if a <= b {
        a
    } else {
        b
    }
}

pub open spec fn max(a: int, b: int) -> int {
    if a >= b {
        a
    } else {
        b
    }
}

impl Doc {
    /// The text is an encoded string, and the lines start at increasing
    /// character boundaries, the first one at the beginning.
    pub open spec fn wf(self) -> bool {
        &&& well_formed(self.cells)
        &&& self.cells.len() <= usize::MAX
        &&& 1 <= self.starts.len() <= usize::MAX
        &&& self.starts[0] == 0
        &&& forall|i: int|
            0 <= i < self.starts.len() ==> 0 <= #[trigger] self.starts[i] <= self.cells.len()
                && boundary(self.cells, self.starts[i])
        &&& forall|i: int, j: int|
            0 <= i < j < self.starts.len() ==> #[trigger] self.starts[i] < #[trigger] self.starts[j]
    }

    /// Length of the text in bytes.
    pub open spec fn len(self) -> int {
        self.cells.len() as int
    }

    /// `o` is a character boundary of the text.
    pub open spec fn at_boundary(self, o: int) -> bool {
        boundary(self.cells, o)
    }

    /// The character that starts at `o`.
    pub open spec fn char_at(self, o: int) -> Option<char> {
        if 0 <= o < self.cells.len() {
            self.cells[o]
        } else {
            None
        }
    }

    /// The offset behind the character that starts at `o`.
    pub open spec fn next(self, o: int) -> Option<int> {
        match self.char_at(o) {
            Some(c) => Some(o + width(c)),
            None => None,
        }
    }

    /// The start of the character that ends at `o`.
    pub open spec fn prev(self, o: int) -> Option<int> {
        if 0 < o <= self.cells.len() && self.at_boundary(o) {
            Some(back_to_start(self.cells, o - 1))
        } else {
            None
        }
    }

    pub open spec fn line_count(self) -> int {
        self.starts.len() as int
    }

    /// Start of line `i`; the end of the text for a line that does not exist.
    pub open spec fn line_start(self, i: int) -> int {
        if 0 <= i < self.starts.len() {
            self.starts[i]
        } else {
            self.len()
        }
    }

    /// Where line `i` stops, its newline included.
    pub open spec fn line_stop(self, i: int) -> int {
        self.line_start(i + 1)
    }

    /// Where the contents of line `i` end, before the newline.
    pub open spec fn line_end(self, i: int) -> int {
        let start = self.line_start(i);
        let stop = self.line_stop(i);
        if stop > start && self.char_at(stop - 1) == Some('\n') {
            stop - 1
        } else {
            stop
        }
    }

    /// The line that holds offset `o`.
    pub open spec fn line_of(self, o: int) -> int {
        last_start(self.starts, o, self.starts.len() as int)
    }

    /// The first offset in `[o, end]` that holds neither a space nor a tab.
    pub open spec fn after_indent(self, o: int, end: int) -> int
        decreases end - o,
    {
        if o >= end {
            o
        } else {
            match self.char_at(o) {
                Some(c) => if c == ' ' || c == '\t' {
                    self.after_indent(o + 1, end)
                } else {
                    o
                },
                None => o,
            }
        }
    }

    /// Byte length of the spaces and tabs that line `i` begins with.
    pub open spec fn indent(self, i: int) -> int {
        self.after_indent(self.line_start(i), self.line_end(i)) - self.line_start(i)
    }

    /// Line `i` holds nothing but spaces and tabs.
    pub open spec fn is_blank(self, i: int) -> bool {
        self.line_start(i) + self.indent(i) >= self.line_end(i)
    }

    /// The first non-blank character of line `i`, or the line's end.
    pub open spec fn first_non_blank(self, i: int) -> int {
        min(self.line_start(i) + self.indent(i), self.line_end(i))
    }

    /// `o`, or the end of its line where `o` lies behind that.
    pub open spec fn clamp(self, o: int) -> int {
        min(o, self.line_end(self.line_of(o)))
    }

    /// The characters between two offsets.
    pub open spec fn slice(self, a: int, b: int) -> Seq<char> {
        chars_in(self.cells.subrange(a, b))
    }

    /// `[a, b)` is a range of whole characters.
    pub open spec fn is_range(self, a: int, b: int) -> bool {
        0 <= a <= b <= self.len() && self.at_boundary(a) && self.at_boundary(b)
    }
}

/// Line `i` of `b` is line `i` of `a` with `n` more bytes in it.
pub open spec fn line_grew(a: Doc, b: Doc, i: int, n: int) -> bool {
    &&& 0 <= i < b.line_count()
    &&& b.line_start(i) == a.line_start(i)
    &&& b.line_end(i) == a.line_end(i) + n
}

/// Nothing but spaces and tabs.
pub open spec fn all_blanks(s: Seq<char>) -> bool {
    forall|k: int| 0 <= k < s.len() ==> #[trigger] s[k] == ' ' || s[k] == '\t'
}

/// `t` with `[a, b)` replaced by `with`.
pub open spec fn splice(
    t: Seq<Option<char>>,
    a: int,
    b: int,
    with: Seq<Option<char>>,
) -> Seq<Option<char>> {
    t.take(a) + with + t.skip(b)
}

pub proof fn lemma_last_start(starts: Seq<int>, o: int, k: int)
    requires
        1 <= k <= starts.len(),
        starts[0] <= o,
        forall|i: int, j: int|
            0 <= i < j < starts.len() ==> #[trigger] starts[i] < #[trigger] starts[j],
    ensures
        0 <= last_start(starts, o, k) < k,
        starts[last_start(starts, o, k)] <= o,
        last_start(starts, o, k) + 1 < k ==> starts[last_start(starts, o, k) + 1] > o,
    decreases k,
{
    if k > 1 && starts[k - 1] > o {
        lemma_last_start(starts, o, k - 1);
    }
}

pub proof fn lemma_back_to_start(t: Seq<Option<char>>, o: int)
    requires
        well_formed(t),
        0 <= o < t.len(),
    ensures
        0 <= back_to_start(t, o) <= o,
        t[back_to_start(t, o)] is Some,
        forall|k: int| back_to_start(t, o) < k <= o ==> #[trigger] t[k] is None,
    decreases o,
{
    if o == 0 {
        assert(boundary(t, 0));
    } else if t[o] is None {
        lemma_back_to_start(t, o - 1);
    }
}

impl Doc {
    /// The line of an offset holds it.
    pub proof fn lemma_line_of(self, o: int)
        requires
            self.wf(),
            0 <= o,
        ensures
            0 <= self.line_of(o) < self.line_count(),
            self.line_start(self.line_of(o)) <= o,
            self.line_of(o) + 1 < self.line_count() ==> self.line_stop(self.line_of(o)) > o,
            o <= self.len() ==> self.line_stop(self.line_of(o)) >= o,
    {
        lemma_last_start(self.starts, o, self.starts.len() as int);
    }

    /// A line that holds `o` is the line of `o`.
    pub proof fn lemma_line_of_unique(self, o: int, i: int)
        requires
            self.wf(),
            0 <= i < self.line_count(),
            self.line_start(i) <= o,
            i + 1 < self.line_count() ==> self.line_stop(i) > o,
        ensures
            self.line_of(o) == i,
    {
        assert(self.starts[i] >= 0);
        lemma_last_start(self.starts, o, self.starts.len() as int);
        let j = self.line_of(o);
        if j < i {
            assert(self.starts[j + 1] <= self.starts[i]) by {
                if j + 1 < i {
                    assert(self.starts[j + 1] < self.starts[i]);
                }
            }
        } else if i < j {
            assert(self.starts[i + 1] <= self.starts[j]) by {
                if i + 1 < j {
                    assert(self.starts[i + 1] < self.starts[j]);
                }
            }
        }
    }

    /// Order and position of the ends of a line.
    pub proof fn lemma_line_bounds(self, i: int)
        requires
            self.wf(),
            0 <= i,
        ensures
            0 <= self.line_start(i) <= self.line_end(i) <= self.line_stop(i) <= self.len(),
            self.line_stop(i) <= self.line_end(i) + 1,
            self.at_boundary(self.line_start(i)),
            self.at_boundary(self.line_end(i)),
            self.at_boundary(self.line_stop(i)),
    {
        if i + 1 < self.line_count() {
            assert(self.starts[i] < self.starts[i + 1]);
        }
    }

    /// A character takes up the bytes up to the next boundary.
    pub proof fn lemma_char_fits(self, o: int)
        requires
            self.wf(),
        ensures
            self.char_at(o) matches Some(c) ==> {
                &&& 0 <= o
                &&& o + width(c) <= self.len()
                &&& self.at_boundary(o)
                &&& self.at_boundary(o + width(c))
                &&& 1 <= width(c) <= 4
            },
    {
        if 0 <= o < self.len() {
            assert(char_fits(self.cells, o));
        }
    }

    /// The character before a boundary ends there.
    pub proof fn lemma_prev(self, o: int)
        requires
            self.wf(),
            0 < o <= self.len(),
            self.at_boundary(o),
        ensures
            self.prev(o) is Some,
            0 <= self.prev(o)->0 < o,
            self.at_boundary(self.prev(o)->0),
            self.char_at(self.prev(o)->0) is Some,
            self.prev(o)->0 + width(self.char_at(self.prev(o)->0)->0) == o,
            self.next(self.prev(o)->0) == Some(o),
    {
        let p = back_to_start(self.cells, o - 1);
        lemma_back_to_start(self.cells, o - 1);
        assert(char_fits(self.cells, p));
        let c = self.cells[p]->0;
        if p + width(c) < o {
            assert(self.cells[p + width(c)] is Some);
        } else if p + width(c) > o {
            assert(self.cells[o] is None);
        }
    }

    /// The character that starts at `o` is the one before where it ends.
    pub proof fn lemma_prev_of_next(self, o: int)
        requires
            self.wf(),
            self.char_at(o) is Some,
        ensures
            self.prev(o + width(self.char_at(o)->0)) == Some(o),
    {
        let n = o + width(self.char_at(o)->0);
        self.lemma_char_fits(o);
        self.lemma_prev(n);
        let p = self.prev(n)->0;
        if p < o {
            self.lemma_char_fits(p);
            assert(char_fits(self.cells, p));
            assert(self.cells[o] is None);
        } else if p > o {
            assert(char_fits(self.cells, o));
            assert(self.cells[p] is None);
        }
    }

    pub proof fn lemma_after_indent(self, o: int, end: int)
        requires
            self.wf(),
            0 <= o <= end <= self.len(),
        ensures
            o <= self.after_indent(o, end) <= end,
            self.at_boundary(o) ==> self.at_boundary(self.after_indent(o, end)),
            forall|k: int|
                o <= k < self.after_indent(o, end) ==> #[trigger] self.cells[k] == Some(' ')
                    || self.cells[k] == Some('\t'),
        decreases end - o,
    {
        if o < end {
            self.lemma_char_fits(o);
            if self.char_at(o) == Some(' ') || self.char_at(o) == Some('\t') {
                self.lemma_after_indent(o + 1, end);
            }
        }
    }

    pub proof fn lemma_first_non_blank(self, i: int)
        requires
            self.wf(),
            0 <= i,
        ensures
            self.line_start(i) <= self.first_non_blank(i) <= self.line_end(i),
            self.first_non_blank(i) == self.line_start(i) + self.indent(i),
            0 <= self.indent(i),
            self.at_boundary(self.first_non_blank(i)),
    {
        self.lemma_line_bounds(i);
        self.lemma_after_indent(self.line_start(i), self.line_end(i));
    }

    pub proof fn lemma_clamp(self, o: int)
        requires
            self.wf(),
            0 <= o,
        ensures
            0 <= self.clamp(o) <= o,
            self.clamp(o) <= self.len(),
            self.clamp(o) >= self.line_start(self.line_of(o)),
            self.line_of(self.clamp(o)) == self.line_of(o),
            self.at_boundary(o) ==> self.at_boundary(self.clamp(o)),
            o > self.len() ==> self.at_boundary(self.clamp(o)),
    {
        self.lemma_line_of(o);
        let i = self.line_of(o);
        self.lemma_line_bounds(i);
        self.lemma_line_of_unique(self.clamp(o), i);
    }
}

} // verus!
