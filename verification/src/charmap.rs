//! A small map keyed by characters.
use crate::shift::Shift;
use vstd::prelude::*;

verus! {

/// What the first entry for `c` holds.
pub open spec fn first_for<V>(entries: Seq<(char, V)>, c: char) -> Option<V>
    decreases entries.len(),
{
    if entries.len() == 0 {
        None
    } else if entries[0].0 == c {
        Some(entries[0].1)
    } else {
        first_for(entries.drop_first(), c)
    }
}

/// Values under single-character names. An entry shadows later ones of the
/// same name.
pub struct CharMap<V> {
    entries: Vec<(char, V)>,
}

proof fn lemma_first_for<V>(entries: Seq<(char, V)>, c: char, i: int)
    requires
        0 <= i <= entries.len(),
        forall|j: int| 0 <= j < i ==> (#[trigger] entries[j]).0 != c,
    ensures
        i < entries.len() && entries[i].0 == c ==> first_for(entries, c) == Some(entries[i].1),
        i == entries.len() ==> first_for(entries, c) is None,
    decreases i,
{
    if i > 0 {
        assert(entries[0].0 != c);
        let rest = entries.drop_first();
        assert forall|j: int| 0 <= j < i - 1 implies (#[trigger] rest[j]).0 != c by {
            assert(rest[j] == entries[j + 1]);
        }
        lemma_first_for(rest, c, i - 1);
    }
}

proof fn lemma_first_for_found<V>(entries: Seq<(char, V)>, c: char) -> (i: int)
    requires
        first_for(entries, c) is Some,
    ensures
        0 <= i < entries.len(),
        entries[i].0 == c,
        entries[i].1 == first_for(entries, c)->0,
        forall|j: int| 0 <= j < i ==> (#[trigger] entries[j]).0 != c,
    decreases entries.len(),
{
    if entries[0].0 == c {
        0
    } else {
        let i = lemma_first_for_found(entries.drop_first(), c);
        assert forall|j: int| 0 <= j < i + 1 implies (#[trigger] entries[j]).0 != c by {
            if j > 0 {
                assert(entries[j] == entries.drop_first()[j - 1]);
            }
        }
        i + 1
    }
}

/// Writing entry `i`, the first for its name, changes what is found under
/// that name only.
proof fn lemma_update<V>(entries: Seq<(char, V)>, i: int, v: V, c: char)
    requires
        0 <= i < entries.len(),
        forall|j: int| 0 <= j < i ==> (#[trigger] entries[j]).0 != entries[i].0,
    ensures
        first_for(entries.update(i, (entries[i].0, v)), c) == if c == entries[i].0 {
            Some(v)
        } else {
            first_for(entries, c)
        },
    decreases i,
{
    let name = entries[i].0;
    let after = entries.update(i, (name, v));
    if i > 0 {
        let rest = entries.drop_first();
        assert forall|j: int| 0 <= j < i - 1 implies (#[trigger] rest[j]).0 != rest[i - 1].0 by {
            assert(rest[j] == entries[j + 1]);
        }
        lemma_update(rest, i - 1, v, c);
        assert(after.drop_first() =~= rest.update(i - 1, (name, v)));
    } else {
        assert(after.drop_first() =~= entries.drop_first());
    }
}

proof fn lemma_push<V>(entries: Seq<(char, V)>, name: char, v: V, c: char)
    requires
        first_for(entries, name) is None,
    ensures
        first_for(entries.push((name, v)), c) == if c == name {
            Some(v)
        } else {
            first_for(entries, c)
        },
    decreases entries.len(),
{
    let after = entries.push((name, v));
    if entries.len() > 0 {
        lemma_push(entries.drop_first(), name, v, c);
        assert(after.drop_first() =~= entries.drop_first().push((name, v)));
        assert(after[0] == entries[0]);
    } else {
        assert(after.drop_first() =~= Seq::<(char, V)>::empty());
        assert(after[0] == (name, v));
        assert(first_for(after.drop_first(), c) is None);
    }
}

impl<V> CharMap<V> {
    /// What is stored under `c`.
    pub closed spec fn at(self, c: char) -> Option<V> {
        first_for(self.entries@, c)
    }

    pub fn new() -> (m: Self)
        ensures
            forall|c: char| #[trigger] m.at(c) is None,
    {
        CharMap { entries: Vec::new() }
    }

    fn position(&self, c: char) -> (r: Option<usize>)
        ensures
            r is None ==> self.at(c) is None,
            r matches Some(i) ==> {
                &&& i < self.entries.len()
                &&& self.entries@[i as int].0 == c
                &&& self.at(c) == Some(self.entries@[i as int].1)
                &&& forall|j: int| 0 <= j < i ==> (#[trigger] self.entries@[j]).0 != c
            },
    {
        let mut i: usize = 0;
        while i < self.entries.len()
            invariant
                i <= self.entries.len(),
                forall|j: int| 0 <= j < i ==> (#[trigger] self.entries@[j]).0 != c,
            decreases self.entries.len() - i,
        {
            if self.entries[i].0 == c {
                proof {
                    lemma_first_for(self.entries@, c, i as int);
                }
                return Some(i);
            }
            i = i + 1;
        }
        proof {
            lemma_first_for(self.entries@, c, i as int);
        }
        None
    }

    pub fn get(&self, c: char) -> (r: Option<&V>)
        ensures
            r is Some == self.at(c) is Some,
            r matches Some(v) ==> self.at(c) == Some(*v),
    {
        match self.position(c) {
            Some(i) => Some(&self.entries[i].1),
            None => None,
        }
    }

    pub fn insert(&mut self, c: char, v: V)
        ensures
            forall|k: char| #[trigger]
                final(self).at(k) == if k == c {
                    Some(v)
                } else {
                    old(self).at(k)
                },
    {
        let ghost before = self.entries@;
        match self.position(c) {
            Some(i) => {
                self.entries.set(i, (c, v));
                proof {
                    assert forall|k: char| #[trigger]
                        self.at(k) == if k == c {
                            Some(v)
                        } else {
                            old(self).at(k)
                        } by {
                        lemma_update(before, i as int, v, k);
                    }
                }
            },
            None => {
                self.entries.push((c, v));
                proof {
                    assert forall|k: char| #[trigger]
                        self.at(k) == if k == c {
                            Some(v)
                        } else {
                            old(self).at(k)
                        } by {
                        lemma_push(before, c, v, k);
                    }
                }
            },
        }
    }
}

/// `names` lists every name that is in use, once and in order.
pub open spec fn lists_all<V>(m: CharMap<V>, items: Seq<(char, V)>) -> bool {
    &&& forall|i: int, j: int|
        0 <= i < j < items.len() ==> (#[trigger] items[i]).0 < (#[trigger] items[j]).0
    &&& forall|i: int| 0 <= i < items.len() ==> m.at((#[trigger] items[i]).0) == Some(items[i].1)
    &&& forall|c: char| (#[trigger] m.at(c)) is Some ==> exists|i: int|
        0 <= i < items.len() && (#[trigger] items[i]).0 == c
}

proof fn lemma_shift_entries(before: Seq<(char, usize)>, after: Seq<(char, usize)>, s: Shift, c: char)
    requires
        before.len() == after.len(),
        forall|i: int|
            0 <= i < before.len() ==> (#[trigger] after[i]).0 == before[i].0 && after[i].1
                == s.shifted(before[i].1 as int),
    ensures
        first_for(after, c) is Some == first_for(before, c) is Some,
        first_for(before, c) matches Some(v) ==> first_for(after, c)->0 == s.shifted(v as int),
    decreases before.len(),
{
    if before.len() > 0 {
        assert(after[0].0 == before[0].0);
        let b = before.drop_first();
        let a = after.drop_first();
        assert forall|i: int| 0 <= i < b.len() implies (#[trigger] a[i]).0 == b[i].0 && a[i].1
            == s.shifted(b[i].1 as int) by {
            assert(a[i] == after[i + 1]);
        }
        lemma_shift_entries(b, a, s, c);
    }
}

impl CharMap<usize> {
    /// Move every stored offset as an edit moves it.
    pub fn shift_all(&mut self, s: &Shift)
        requires
            s.wf(),
        ensures
            forall|c: char|
                {
                    &&& (#[trigger] final(self).at(c)) is Some == old(self).at(c) is Some
                    &&& old(self).at(c) matches Some(v) ==> final(self).at(c)->0 == s.shifted(v as int)
                },
    {
        let ghost before = self.entries@;
        let mut i: usize = 0;
        while i < self.entries.len()
            invariant
                s.wf(),
                self.entries.len() == before.len(),
                i <= before.len(),
                forall|j: int|
                    0 <= j < i ==> (#[trigger] self.entries@[j]).0 == before[j].0
                        && self.entries@[j].1 == s.shifted(before[j].1 as int),
                forall|j: int| i <= j < before.len() ==> (#[trigger] self.entries@[j]) == before[j],
            decreases before.len() - i,
        {
            let (name, offset) = self.entries[i];
            self.entries.set(i, (name, s.shift(offset)));
            i = i + 1;
        }
        proof {
            assert forall|c: char|
                {
                    &&& (#[trigger] self.at(c)) is Some == old(self).at(c) is Some
                    &&& old(self).at(c) matches Some(v) ==> self.at(c)->0 == s.shifted(v as int)
                } by {
                lemma_shift_entries(before, self.entries@, *s, c);
            }
        }
    }

    /// Every name with what is stored under it, in the order of the names.
    pub fn items(&self) -> (r: Vec<(char, usize)>)
        ensures
            lists_all(*self, r@),
    {
        let mut r: Vec<(char, usize)> = Vec::new();
        let mut i: usize = 0;
        while i < self.entries.len()
            invariant
                i <= self.entries.len(),
                forall|a: int, b: int|
                    0 <= a < b < r.len() ==> (#[trigger] r@[a]).0 < (#[trigger] r@[b]).0,
                forall|a: int| 0 <= a < r.len() ==> self.at((#[trigger] r@[a]).0) == Some(r@[a].1),
                forall|j: int|
                    0 <= j < i ==> exists|a: int|
                        0 <= a < r.len() && (#[trigger] r@[a]).0 == (#[trigger] self.entries@[j]).0,
            decreases self.entries.len() - i,
        {
            let (name, _) = self.entries[i];
            let mut k: usize = 0;
            while k < r.len() && r[k].0 < name
                invariant
                    k <= r.len(),
                    forall|a: int| 0 <= a < k ==> (#[trigger] r@[a]).0 < name,
                decreases r.len() - k,
            {
                k = k + 1;
            }
            let ghost before = r@;
            if k < r.len() && r[k].0 == name {
                proof {
                    assert(r@[k as int].0 == self.entries@[i as int].0);
                }
            } else {
                let value = match self.get(name) {
                    Some(v) => *v,
                    None => {
                        proof {
                            let ghost j = i as int;
                            lemma_present(self.entries@, j);
                        }
                        0
                    },
                };
                proof {
                    lemma_present(self.entries@, i as int);
                }
                r.insert(k, (name, value));
                proof {
                    assert(r@ =~= before.insert(k as int, (name, value)));
                    assert(r@[k as int].0 == self.entries@[i as int].0);
                    assert forall|j: int| 0 <= j < i implies exists|a: int|
                        0 <= a < r.len() && (#[trigger] r@[a]).0 == (#[trigger] self.entries@[j]).0 by {
                        let a = choose|a: int|
                            0 <= a < before.len() && (#[trigger] before[a]).0 == self.entries@[j].0;
                        if a < k {
                            assert(r@[a] == before[a]);
                        } else {
                            assert(r@[a + 1] == before[a]);
                        }
                    }
                }
            }
            i = i + 1;
        }
        proof {
            assert forall|c: char| (#[trigger] self.at(c)) is Some implies exists|a: int|
                0 <= a < r@.len() && (#[trigger] r@[a]).0 == c by {
                let j = lemma_first_for_found(self.entries@, c);
                assert(self.entries@[j].0 == c);
            }
        }
        r
    }
}

/// A name that has an entry is in use.
proof fn lemma_present<V>(entries: Seq<(char, V)>, i: int)
    requires
        0 <= i < entries.len(),
    ensures
        first_for(entries, entries[i].0) is Some,
    decreases i,
{
    if i > 0 {
        lemma_present(entries.drop_first(), i - 1);
        assert(entries.drop_first()[i - 1] == entries[i]);
    }
}

} // verus!
