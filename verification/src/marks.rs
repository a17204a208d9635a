//! Marks: user marks `a-z`, special marks (` ^ . < >), and jump helpers.
use crate::charmap::{lists_all, CharMap};
use crate::shift::Shift;
use std::ops::Range;
use vstd::prelude::*;

verus! {

/// Local (buffer) marks.
pub struct Marks {
    pub offsets: CharMap<usize>,
    /// Range of the last visual selection (`< .. >`).
    pub last_visual: Option<(usize, usize)>,
    /// Live `(anchor, cursor_end)` of the current visual selection, kept in
    /// sync by the engine (used for `'<`/`'>` inside visual mode).
    pub active_visual: Option<(usize, usize)>,
    /// Position of the last change (`.`).
    pub last_change: Option<usize>,
    /// Position where the last insert session ended (`^`).
    pub last_insert_exit: Option<usize>,
}

/// The names that a mark can be set under.
pub open spec fn settable(name: char) -> bool {
    'a' <= name <= 'z' || 'A' <= name <= 'Z' || name == '^' || name == '.'
}

/// A stored pair of positions after an edit.
pub open spec fn moved_pair(s: Shift, p: Option<(usize, usize)>) -> Option<(usize, usize)> {
    match p {
        Some((a, b)) => Some((s.shifted(a as int) as usize, s.shifted(b as int) as usize)),
        None => None,
    }
}

/// A stored position after an edit.
pub open spec fn moved_pos(s: Shift, p: Option<usize>) -> Option<usize> {
    match p {
        Some(a) => Some(s.shifted(a as int) as usize),
        None => None,
    }
}

/// The positions that a buffer's marks hold.
#[verifier::ext_equal]
pub struct MarkSet {
    pub at: spec_fn(char) -> Option<usize>,
    pub last_visual: Option<(usize, usize)>,
    pub active_visual: Option<(usize, usize)>,
    pub last_change: Option<usize>,
    pub last_insert_exit: Option<usize>,
}

/// No mark is set.
pub open spec fn no_marks() -> MarkSet {
    MarkSet {
        at: |name: char| None,
        last_visual: None,
        active_visual: None,
        last_change: None,
        last_insert_exit: None,
    }
}

impl MarkSet {
    /// The offset of the mark `name`.
    pub open spec fn mark(self, name: char) -> Option<usize> {
        (self.at)(name)
    }

    /// Where a jump to `name` goes.
    pub open spec fn resolved(self, name: char) -> Option<usize> {
        if name == '<' {
            match self.last_visual {
                Some((a, _)) => Some(a),
                None => None,
            }
        } else if name == '>' {
            match self.last_visual {
                Some((_, b)) => Some(b),
                None => None,
            }
        } else {
            self.mark(name)
        }
    }

    /// The marks once `name` is set, if a mark can be set under that name.
    pub open spec fn with_mark(self, name: char, offset: usize) -> MarkSet {
        MarkSet {
            at: |k: char|
                if k == name && settable(name) {
                    Some(offset)
                } else {
                    self.mark(k)
                },
            ..self
        }
    }

    /// Every stored position moved as `s` moves it. The bounds of a live
    /// selection stay.
    pub open spec fn moved(self, s: Shift) -> MarkSet {
        MarkSet {
            at: |k: char| moved_pos(s, self.mark(k)),
            last_visual: moved_pair(s, self.last_visual),
            active_visual: self.active_visual,
            last_change: moved_pos(s, self.last_change),
            last_insert_exit: moved_pos(s, self.last_insert_exit),
        }
    }
}

impl View for Marks {
    type V = MarkSet;

    closed spec fn view(&self) -> MarkSet {
        MarkSet {
            at: |name: char| self.offsets.at(name),
            last_visual: self.last_visual,
            active_visual: self.active_visual,
            last_change: self.last_change,
            last_insert_exit: self.last_insert_exit,
        }
    }
}

/// An edit keeps the order of the marks.
pub proof fn marks_keep_order(m: MarkSet, s: Shift, a: char, b: char)
    requires
        s.wf(),
        m.mark(a) matches Some(x) && m.mark(b) matches Some(y) && x <= y,
    ensures
        m.moved(s).mark(a) matches Some(x) && m.moved(s).mark(b) matches Some(y) && x <= y,
{
}

/// A mark outside of an edited range stays on its character: before the range
/// it keeps its offset, behind the range its distance from the text's end.
pub proof fn marks_follow_text(m: MarkSet, start: usize, end: usize, len: usize, name: char, at: usize)
    requires
        start < end,
        m.mark(name) == Some(at),
        at <= start || end <= at,
        at + len <= usize::MAX,
    ensures
        m.moved(Shift::Replace { start, end, len }).mark(name) == Some(
            if at <= start {
                at
            } else {
                (at - (end - start) + len) as usize
            },
        ),
{
}

impl Marks {
    pub fn new() -> (m: Self)
        ensures
            m@ == no_marks(),
    {
        Marks {
            offsets: CharMap::new(),
            last_visual: None,
            active_visual: None,
            last_change: None,
            last_insert_exit: None,
        }
    }

    pub fn get(&self, name: char) -> (o: Option<usize>)
        ensures
            o == self@.mark(name),
    {
        match self.offsets.get(name) {
            Some(o) => Some(*o),
            None => None,
        }
    }

    /// `items` lists every mark once, in the order of the names.
    pub open spec fn listed_by(self, items: Seq<(char, usize)>) -> bool {
        lists_all(self.offsets, items)
    }

    /// A listing holds every mark once, with its offset, sorted by name.
    pub proof fn marks_are_listed_once(self, items: Seq<(char, usize)>)
        requires
            self.listed_by(items),
        ensures
            forall|i: int, j: int|
                0 <= i < j < items.len() ==> (#[trigger] items[i]).0 < (#[trigger] items[j]).0,
            forall|i: int|
                0 <= i < items.len() ==> self@.mark((#[trigger] items[i]).0) == Some(items[i].1),
            forall|c: char|
                (#[trigger] self@.mark(c)) is Some ==> exists|i: int|
                    0 <= i < items.len() && (#[trigger] items[i]).0 == c,
    {
        assert forall|c: char| (#[trigger] self@.mark(c)) is Some implies exists|i: int|
            0 <= i < items.len() && (#[trigger] items[i]).0 == c by {
            assert(self.offsets.at(c) is Some);
        }
    }

    /// All set marks as `(name, offset)`, sorted by name — for `:marks`
    /// style listings (the map itself stays private).
    pub fn items(&self) -> (v: Vec<(char, usize)>)
        ensures
            self.listed_by(v@),
    {
        self.offsets.items()
    }

    pub fn set(&mut self, name: char, offset: usize)
        ensures
            final(self)@ == old(self)@.with_mark(name, offset),
    {
        if ('a' <= name && name <= 'z') || ('A' <= name && name <= 'Z') || name == '^' || name
            == '.' {
            self.offsets.insert(name, offset);
        }
    }

    pub fn set_last_visual(&mut self, range: Option<(usize, usize)>)
        ensures
            final(self)@ == (MarkSet { last_visual: range, ..old(self)@ }),
    {
        self.last_visual = range;
    }

    pub fn set_active_visual(&mut self, range: Option<(usize, usize)>)
        ensures
            final(self)@ == (MarkSet { active_visual: range, ..old(self)@ }),
    {
        self.active_visual = range;
    }

    pub fn set_last_change(&mut self, offset: usize)
        ensures
            final(self)@ == (MarkSet { last_change: Some(offset), ..old(self)@ }),
    {
        self.last_change = Some(offset);
    }

    pub fn set_last_insert_exit(&mut self, offset: usize)
        ensures
            final(self)@ == (MarkSet { last_insert_exit: Some(offset), ..old(self)@ }),
    {
        self.last_insert_exit = Some(offset);
    }

    /// Where insert mode was left last.
    pub fn insert_exit(&self) -> (o: Option<usize>)
        ensures
            o == self@.last_insert_exit,
    {
        self.last_insert_exit
    }

    /// Live bounds of the ACTIVE visual selection (anchor..cursor+1), if any.
    pub fn active_visual(&self) -> (r: Option<(usize, usize)>)
        ensures
            r == self@.active_visual,
    {
        // set by the engine each time the selection changes; keeps resolve()
        // valid inside visual mode, before '< '/'> are written on exit
        self.active_visual
    }

    /// Resolve special names used by `` ` ``/`'` jumps.
    pub fn resolve(&self, name: char) -> (o: Option<usize>)
        ensures
            o == self@.resolved(name),
    {
        if name == '<' {
            match self.last_visual {
                Some((a, _)) => Some(a),
                None => None,
            }
        } else if name == '>' {
            match self.last_visual {
                Some((_, b)) => Some(b),
                None => None,
            }
        } else {
            self.get(name)
        }
    }

    fn for_each_pos(&mut self, s: &Shift)
        requires
            s.wf(),
        ensures
            final(self)@ == old(self)@.moved(*s),
    {
        self.offsets.shift_all(s);
        if let Some((a, b)) = self.last_visual {
            self.last_visual = Some((s.shift(a), s.shift(b)));
        }
        self.last_change = s.shift_opt(self.last_change);
        self.last_insert_exit = s.shift_opt(self.last_insert_exit);
        proof {
            assert forall|name: char| #[trigger] self@.mark(name) == moved_pos(
                *s,
                old(self)@.mark(name),
            ) by {
                assert(self.offsets.at(name) is Some == old(self).offsets.at(name) is Some);
            }
            assert(self@ =~= old(self)@.moved(*s));
        }
    }

    /// Shift every stored mark after an insertion of `len` bytes at `at`.
    /// A mark exactly AT `at` stays: vim keeps it before the inserted text.
    pub fn adjust_insert(&mut self, at: usize, len: usize)
        ensures
            final(self)@ == old(self)@.moved(Shift::Insert { at, len }),
    {
        self.for_each_pos(&Shift::Insert { at, len });
    }

    /// Shift marks around a deletion of `range`: marks past the end move
    /// back by its length, marks strictly inside land on the range start
    /// (a mark exactly at the start stays there). An empty range moves
    /// nothing.
    pub fn adjust_delete(&mut self, range: Range<usize>)
        ensures
            final(self)@ == if range.start < range.end {
                old(self)@.moved(Shift::Delete { start: range.start, end: range.end })
            } else {
                old(self)@
            },
    {
        if range.start >= range.end {
            return;
        }
        self.for_each_pos(&Shift::Delete { start: range.start, end: range.end });
    }

    /// Marks around a replacement (`gu`/`~`/`:s`): past-the-end marks shift
    /// by the length delta, marks inside the replaced range land on its start.
    pub fn adjust_replace(&mut self, range: Range<usize>, new_len: usize)
        ensures
            final(self)@ == if range.start < range.end {
                old(self)@.moved(
                    Shift::Replace { start: range.start, end: range.end, len: new_len },
                )
            } else {
                old(self)@
            },
    {
        if range.start >= range.end {
            return;
        }
        self.for_each_pos(
            &Shift::Replace { start: range.start, end: range.end, len: new_len },
        );
    }
}

impl Default for Marks {
    fn default() -> (m: Self)
        ensures
            m@ == no_marks(),
    {
        Marks::new()
    }
}

} // verus!
