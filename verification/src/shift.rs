//! How offsets move when the text around them is edited.
use crate::doc::min;
use vstd::prelude::*;

verus! {

/// One edit, as far as offsets are concerned.
#[derive(Clone, Copy, Debug, PartialEq, Eq, Structural)]
pub enum Shift {
    /// `len` bytes inserted at `at`.
    Insert { at: usize, len: usize },
    /// `[start, end)` deleted.
    Delete { start: usize, end: usize },
    /// `[start, end)` replaced by `len` bytes.
    Replace { start: usize, end: usize, len: usize },
}

impl Shift {
    /// A deleted or replaced range is in order.
    pub open spec fn wf(self) -> bool {
        match self {
            Shift::Insert { .. } => true,
            Shift::Delete { start, end } => start <= end,
            Shift::Replace { start, end, .. } => start <= end,
        }
    }

    /// Where an offset is after the edit. An offset at the place of an
    /// insertion stays before the inserted text. One inside a deleted or
    /// replaced range falls back to its start, unless the replacement is as
    /// long as what it replaces. One behind the range keeps its distance
    /// from the text behind it.
    pub open spec fn shifted(self, pos: int) -> int {
        match self {
            Shift::Insert { at, len } => if pos > at {
                min(pos + len, usize::MAX as int)
            } else {
                pos
            },
            Shift::Delete { start, end } => if pos >= end {
                pos - (end - start)
            } else if pos > start {
                start as int
            } else {
                pos
            },
            Shift::Replace { start, end, len } => if start == end {
                pos
            } else if pos >= end {
                min(pos - (end - start) + len, usize::MAX as int)
            } else if pos > start && len != end - start {
                start as int
            } else {
                pos
            },
        }
    }

    pub fn shift(&self, pos: usize) -> (r: usize)
        requires
            self.wf(),
        ensures
            r == self.shifted(pos as int),
    {
        match *self {
            Shift::Insert { at, len } => if pos > at {
                plus(pos, len)
            } else {
                pos
            },
            Shift::Delete { start, end } => if pos >= end {
                pos - (end - start)
            } else if pos > start {
                start
            } else {
                pos
            },
            Shift::Replace { start, end, len } => if start == end {
                pos
            } else if pos >= end {
                plus(pos - (end - start), len)
            } else if pos > start && len != end - start {
                start
            } else {
                pos
            },
        }
    }

    pub fn shift_opt(&self, pos: Option<usize>) -> (r: Option<usize>)
        requires
            self.wf(),
        ensures
            r is Some == pos is Some,
            pos matches Some(p) ==> r->0 == self.shifted(p as int),
    {
        match pos {
            Some(p) => Some(self.shift(p)),
            None => None,
        }
    }
}

/// `a + b`, or the largest offset when that is beyond it.
pub fn plus(a: usize, b: usize) -> (r: usize)
    ensures
        r == min(a + b, usize::MAX as int),
{
    if a <= usize::MAX - b {
        a + b
    } else {
        usize::MAX
    }
}

/// An edit keeps the order of offsets.
pub proof fn shift_is_monotone(s: Shift, a: int, b: int)
    requires
        s.wf(),
        0 <= a <= b <= usize::MAX,
    ensures
        s.shifted(a) <= s.shifted(b),
{
}

/// Deleting what was just inserted puts every offset back, but for those that
/// the insertion pushed beyond the largest offset.
pub proof fn delete_undoes_insert(at: usize, len: usize, pos: int)
    requires
        at + len <= usize::MAX,
        0 <= pos,
        pos + len <= usize::MAX,
    ensures
        (Shift::Delete { start: at, end: (at + len) as usize }).shifted(
            (Shift::Insert { at, len }).shifted(pos),
        ) == pos,
{
}

/// A replacement by a text of the same length moves nothing.
pub proof fn equal_replacement_moves_nothing(start: usize, end: usize, pos: int)
    requires
        start <= end,
        0 <= pos <= usize::MAX,
    ensures
        (Shift::Replace { start, end, len: (end - start) as usize }).shifted(pos) == pos,
{
}

} // verus!
