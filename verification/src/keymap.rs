//! Keystroke tries and user mappings.
//!
//! One generic prefix trie backs both the built-in command tables (per
//! phase: normal / operator-pending / visual) and user `:map`-style mappings.
//! Walking the trie key by key gives us vim's "pending keys" behavior for
//! free: an intermediate node means "waiting for more keys".
use crate::key::{copy_keys, parse_key_sequence, parsed_sequence, strokes, Key, Stroke};
use vstd::prelude::*;

verus! {

pub struct Trie<T> {
    pub children: Vec<(Key, Trie<T>)>,
    pub value: Option<T>,
}

/// Result of advancing a trie walk by one key.
pub enum Walk<'a, T> {
    /// A terminal node was reached.
    Hit(&'a T),
    /// An intermediate node: the engine must wait for more keys.
    Pending,
    /// No child matched.
    Miss,
}

/// The index of the first child for `s`, from `i` on; the number of children
/// without one.
pub open spec fn child_from<T>(children: Seq<(Key, Trie<T>)>, s: Stroke, i: int) -> int
    decreases children.len() - i,
{
    if i >= children.len() || children[i].0@ == s {
        i
    } else {
        child_from(children, s, i + 1)
    }
}

proof fn lemma_child_from<T>(children: Seq<(Key, Trie<T>)>, s: Stroke, i: int)
    requires
        0 <= i <= children.len(),
    ensures
        i <= child_from(children, s, i) <= children.len(),
        child_from(children, s, i) < children.len() ==> children[child_from(children, s, i)].0@ == s,
        forall|j: int| i <= j < child_from(children, s, i) ==> (#[trigger] children[j]).0@ != s,
    decreases children.len() - i,
{
    if i < children.len() && children[i].0@ != s {
        lemma_child_from(children, s, i + 1);
    }
}

/// The first child for a stroke is the one that no earlier child matches.
proof fn lemma_child_is<T>(children: Seq<(Key, Trie<T>)>, s: Stroke, i: int, k: int)
    requires
        0 <= i <= k <= children.len(),
        k < children.len() ==> children[k].0@ == s,
        forall|j: int| i <= j < k ==> (#[trigger] children[j]).0@ != s,
    ensures
        child_from(children, s, i) == k,
    decreases k - i,
{
    if i < k {
        lemma_child_is(children, s, i + 1, k);
    }
}

impl<T> Trie<T> {
    pub open spec fn child(self, s: Stroke) -> int {
        child_from(self.children@, s, 0)
    }

    /// The node that `keys` lead to.
    pub open spec fn node(self, keys: Seq<Stroke>) -> Option<Trie<T>>
        decreases keys.len(),
    {
        if keys.len() == 0 {
            Some(self)
        } else if self.child(keys[0]) < self.children@.len() {
            self.children@[self.child(keys[0])].1.node(keys.drop_first())
        } else {
            None
        }
    }

    /// What is stored under exactly `keys`.
    pub open spec fn stored(self, keys: Seq<Stroke>) -> Option<T> {
        match self.node(keys) {
            Some(n) => n.value,
            None => None,
        }
    }

    /// No branch of the trie is dead: every child leads to a stored value.
    pub open spec fn live(self) -> bool
        decreases self,
    {
        forall|i: int|
            0 <= i < self.children@.len() ==> {
                &&& decreases_to!(self => self.children@[i].1)
                &&& self.children@[i].1.live()
                &&& (self.children@[i].1.value is Some || self.children@[i].1.children@.len() > 0)
                &&& self.child((#[trigger] self.children@[i]).0@) == i
            }
    }

    /// Some stored sequence goes on behind `keys`.
    pub open spec fn continues(self, keys: Seq<Stroke>) -> bool {
        exists|more: Seq<Stroke>| more.len() > 0 && (#[trigger] self.stored(keys + more)) is Some
    }

    pub fn new() -> (t: Self)
        ensures
            t.live(),
            forall|keys: Seq<Stroke>| (#[trigger] t.stored(keys)) is None,
    {
        let t = Trie { children: Vec::new(), value: None };
        proof {
            assert forall|keys: Seq<Stroke>| (#[trigger] t.stored(keys)) is None by {
                assert(t.node(keys) is None || keys.len() == 0);
            }
        }
        t
    }
}

impl<T> Trie<T> {
    /// The trie holds at least one value.
    pub open spec fn some_value(self) -> bool {
        self.value is Some || self.children@.len() > 0
    }

    pub fn is_empty(&self) -> (b: bool)
        ensures
            b == !self.some_value(),
    {
        self.children.len() == 0 && self.value.is_none()
    }

    fn find_child(&self, key: &Key) -> (k: usize)
        ensures
            k == self.child(key@),
            k <= self.children.len(),
    {
        let mut i: usize = 0;
        while i < self.children.len()
            invariant
                i <= self.children.len(),
                self.child(key@) == child_from(self.children@, key@, i as int),
            decreases self.children.len() - i,
        {
            if self.children[i].0.same(key) {
                return i;
            }
            i = i + 1;
        }
        i
    }

    pub fn insert(&mut self, keys: &[Key], value: T)
        requires
            old(self).live(),
        ensures
            final(self).live(),
            final(self).some_value(),
            forall|ks: Seq<Stroke>| #[trigger]
                final(self).stored(ks) == if ks == strokes(keys@) {
                    Some(value)
                } else {
                    old(self).stored(ks)
                },
    {
        self.insert_from(keys, 0, value);
        proof {
            assert(strokes(keys@).skip(0) =~= strokes(keys@));
        }
    }

    fn insert_from(&mut self, keys: &[Key], i: usize, value: T)
        requires
            old(self).live(),
            i <= keys@.len(),
        ensures
            final(self).live(),
            final(self).some_value(),
            forall|ks: Seq<Stroke>| #[trigger]
                final(self).stored(ks) == if ks == strokes(keys@).skip(i as int) {
                    Some(value)
                } else {
                    old(self).stored(ks)
                },
        decreases keys@.len() - i,
    {
        let ghost want = strokes(keys@).skip(i as int);
        let ghost before = *self;
        if i == keys.len() {
            self.value = Some(value);
            proof {
                assert(want =~= Seq::<Stroke>::empty());
                assert forall|ks: Seq<Stroke>| #[trigger]
                    self.stored(ks) == if ks == want {
                        Some(value)
                    } else {
                        before.stored(ks)
                    } by {
                    if ks.len() == 0 {
                        assert(ks =~= want);
                    } else {
                        assert(self.node(ks) == before.node(ks));
                    }
                }
                lemma_live_by_children(before, *self);
            }
            return;
        }
        let key = keys[i].clone();
        proof {
            assert(want[0] == key@);
            assert(want.drop_first() =~= strokes(keys@).skip(i + 1));
        }
        let k = self.find_child(&key);
        proof {
            lemma_child_from(self.children@, key@, 0);
        }
        if k < self.children.len() {
            let ghost old_child = self.children@[k as int].1;
            proof {
                assert(self.child(self.children@[k as int].0@) == k);
                assert(old_child.live());
            }
            self.children[k].1.insert_from(keys, i + 1, value);
            proof {
                let new_child = self.children@[k as int].1;
                assert(self.children@ =~= before.children@.update(
                    k as int,
                    (before.children@[k as int].0, new_child),
                ));
                assert forall|s: Stroke| #[trigger] self.child(s) == before.child(s) by {
                    lemma_same_child(before.children@, self.children@, s, 0);
                }
                assert forall|ks: Seq<Stroke>| #[trigger]
                    self.stored(ks) == if ks == want {
                        Some(value)
                    } else {
                        before.stored(ks)
                    } by {
                    if ks.len() > 0 {
                        let c = before.child(ks[0]);
                        lemma_child_from(before.children@, ks[0], 0);
                        assert(self.child(ks[0]) == c);
                        if c == k {
                            assert(ks[0] == key@);
                            assert(self.node(ks) == new_child.node(ks.drop_first()));
                            assert(before.node(ks) == old_child.node(ks.drop_first()));
                            assert(new_child.stored(ks.drop_first()) == if ks.drop_first()
                                == strokes(keys@).skip(i + 1) {
                                Some(value)
                            } else {
                                old_child.stored(ks.drop_first())
                            });
                            if ks.drop_first() == want.drop_first() {
                                assert(ks =~= seq![ks[0]] + ks.drop_first());
                                assert(want =~= seq![want[0]] + want.drop_first());
                            }
                        } else {
                            if ks[0] == key@ {
                                assert(c == k);
                            }
                            if c < before.children@.len() {
                                assert(self.children@[c] == before.children@[c]);
                            }
                            assert(self.node(ks) == before.node(ks));
                        }
                    } else {
                        assert(self.node(ks) == Some(*self));
                        assert(before.node(ks) == Some(before));
                    }
                }
                assert forall|j: int| 0 <= j < self.children@.len() implies {
                    &&& self.children@[j].1.live()
                    &&& (self.children@[j].1.value is Some || self.children@[j].1.children@.len() > 0)
                    &&& self.child((#[trigger] self.children@[j]).0@) == j
                } by {
                    assert(before.child(before.children@[j].0@) == j);
                    if j != k {
                        assert(self.children@[j] == before.children@[j]);
                    }
                }
                lemma_live(*self);
            }
        } else {
            let mut fresh: Trie<T> = Trie::new();
            let ghost empty = fresh;
            fresh.insert_from(keys, i + 1, value);
            self.children.push((key, fresh));
            proof {
                let n = before.children@.len() as int;
                assert(self.children@ =~= before.children@.push((key, fresh)));
                assert forall|s: Stroke| #[trigger]
                    self.child(s) == if s == key@ {
                        n
                    } else if before.child(s) < n {
                        before.child(s)
                    } else {
                        n + 1
                    } by {
                    lemma_child_from(before.children@, s, 0);
                    if s == key@ {
                        lemma_child_is(self.children@, s, 0, n);
                    } else if before.child(s) < n {
                        lemma_child_is(self.children@, s, 0, before.child(s));
                    } else {
                        lemma_child_is(self.children@, s, 0, n + 1);
                    }
                }
                assert forall|ks: Seq<Stroke>| #[trigger]
                    self.stored(ks) == if ks == want {
                        Some(value)
                    } else {
                        before.stored(ks)
                    } by {
                    if ks.len() > 0 {
                        lemma_child_from(before.children@, ks[0], 0);
                        if ks[0] == key@ {
                            assert(self.child(ks[0]) == n);
                            assert(before.node(ks) is None);
                            assert(self.node(ks) == fresh.node(ks.drop_first()));
                            assert(empty.stored(ks.drop_first()) is None);
                            assert(fresh.stored(ks.drop_first()) == if ks.drop_first() == strokes(
                                keys@,
                            ).skip(i + 1) {
                                Some(value)
                            } else {
                                empty.stored(ks.drop_first())
                            });
                            if ks.drop_first() == want.drop_first() {
                                assert(ks =~= seq![ks[0]] + ks.drop_first());
                                assert(want =~= seq![want[0]] + want.drop_first());
                            }
                        } else {
                            let c = before.child(ks[0]);
                            assert(self.child(ks[0]) == if c < n {
                                c
                            } else {
                                n + 1
                            });
                            if c < n {
                                assert(self.children@[c] == before.children@[c]);
                            }
                            assert(self.node(ks) == before.node(ks));
                        }
                    } else {
                        assert(self.node(ks) == Some(*self));
                        assert(before.node(ks) == Some(before));
                    }
                }
                assert forall|j: int| 0 <= j < self.children@.len() implies {
                    &&& self.children@[j].1.live()
                    &&& (self.children@[j].1.value is Some || self.children@[j].1.children@.len() > 0)
                    &&& self.child((#[trigger] self.children@[j]).0@) == j
                } by {
                    if j < n {
                        assert(self.children@[j] == before.children@[j]);
                        assert(before.child(before.children@[j].0@) == j);
                    }
                }
                lemma_live(*self);
            }
        }
    }

    /// Walk from the root following `keys`. Terminal on the last key wins;
    /// anything else is reported per [`Walk`].
    pub fn get(&self, keys: &[Key]) -> (w: Walk<'_, T>)
        requires
            self.live(),
        ensures
            match w {
                Walk::Hit(v) => self.stored(strokes(keys@)) == Some(*v),
                Walk::Pending => self.stored(strokes(keys@)) is None && self.continues(
                    strokes(keys@),
                ),
                Walk::Miss => self.stored(strokes(keys@)) is None && !self.continues(
                    strokes(keys@),
                ),
            },
    {
        proof {
            assert(strokes(keys@).skip(0) =~= strokes(keys@));
            assert(strokes(keys@).take(0) =~= Seq::<Stroke>::empty());
        }
        let mut node: &Trie<T> = self;
        let mut i: usize = 0;
        while i < keys.len()
            invariant
                i <= keys@.len(),
                self.live(),
                node.live(),
                self.node(strokes(keys@)) == node.node(strokes(keys@).skip(i as int)),
                self.node(strokes(keys@).take(i as int)) == Some(*node),
            decreases keys@.len() - i,
        {
            let ghost rest = strokes(keys@).skip(i as int);
            proof {
                assert(rest[0] == keys@[i as int]@);
                assert(rest.drop_first() =~= strokes(keys@).skip(i + 1));
                lemma_child_from(node.children@, keys@[i as int]@, 0);
            }
            let k = node.find_child(&keys[i]);
            if k >= node.children.len() {
                proof {
                    assert forall|more: Seq<Stroke>| more.len() > 0 implies (#[trigger] self.stored(
                        strokes(keys@) + more,
                    )) is None by {
                        lemma_node_through(
                            *self,
                            strokes(keys@).take(i as int),
                            rest + more,
                            *node,
                        );
                        assert(strokes(keys@).take(i as int) + (rest + more) =~= strokes(keys@)
                            + more);
                        assert((rest + more)[0] == rest[0]);
                    }
                }
                return Walk::Miss;
            }
            proof {
                assert(node.child(node.children@[k as int].0@) == k);
                lemma_node_through(
                    *self,
                    strokes(keys@).take(i as int),
                    seq![rest[0]],
                    *node,
                );
                assert(strokes(keys@).take(i as int) + seq![rest[0]] =~= strokes(keys@).take(i + 1));
                assert(seq![rest[0]].drop_first() =~= Seq::<Stroke>::empty());
                assert(node.node(seq![rest[0]]) == node.children@[k as int].1.node(
                    seq![rest[0]].drop_first(),
                ));
            }
            node = &node.children[k].1;
            i = i + 1;
        }
        proof {
            assert(strokes(keys@).skip(i as int) =~= Seq::<Stroke>::empty());
            assert(strokes(keys@).take(i as int) =~= strokes(keys@));
            if node.children@.len() > 0 {
                lemma_some_value_below(*node);
                let more = choose|more: Seq<Stroke>|
                    more.len() > 0 && (#[trigger] node.stored(more)) is Some;
                lemma_node_through(*self, strokes(keys@), more, *node);
                assert(self.stored(strokes(keys@) + more) is Some);
            } else {
                assert forall|more: Seq<Stroke>| more.len() > 0 implies (#[trigger] self.stored(
                    strokes(keys@) + more,
                )) is None by {
                    lemma_node_through(*self, strokes(keys@), more, *node);
                }
            }
        }
        match &node.value {
            Some(value) => Walk::Hit(value),
            None => if node.children.len() == 0 {
                Walk::Miss
            } else {
                Walk::Pending
            },
        }
    }

    /// Is `keys` a proper prefix of at least one stored sequence?
    pub fn is_prefix(&self, keys: &[Key]) -> (b: bool)
        requires
            self.live(),
        ensures
            b == self.continues(strokes(keys@)),
    {
        proof {
            assert(strokes(keys@).take(0) =~= Seq::<Stroke>::empty());
        }
        let mut node: &Trie<T> = self;
        let mut i: usize = 0;
        while i < keys.len()
            invariant
                i <= keys@.len(),
                self.live(),
                node.live(),
                self.node(strokes(keys@).take(i as int)) == Some(*node),
            decreases keys@.len() - i,
        {
            let ghost s = keys@[i as int]@;
            let ghost rest = strokes(keys@).skip(i as int);
            proof {
                lemma_child_from(node.children@, s, 0);
                assert(rest[0] == s);
            }
            let k = node.find_child(&keys[i]);
            if k >= node.children.len() {
                proof {
                    assert forall|more: Seq<Stroke>| more.len() > 0 implies (#[trigger] self.stored(
                        strokes(keys@) + more,
                    )) is None by {
                        lemma_node_through(
                            *self,
                            strokes(keys@).take(i as int),
                            rest + more,
                            *node,
                        );
                        assert(strokes(keys@).take(i as int) + (rest + more) =~= strokes(keys@)
                            + more);
                        assert((rest + more)[0] == rest[0]);
                    }
                }
                return false;
            }
            proof {
                assert(node.child(node.children@[k as int].0@) == k);
                lemma_node_through(*self, strokes(keys@).take(i as int), seq![s], *node);
                assert(strokes(keys@).take(i as int) + seq![s] =~= strokes(keys@).take(i + 1));
                assert(seq![s].drop_first() =~= Seq::<Stroke>::empty());
                assert(node.node(seq![s]) == node.children@[k as int].1.node(
                    seq![s].drop_first(),
                ));
            }
            node = &node.children[k].1;
            i = i + 1;
        }
        proof {
            assert(strokes(keys@).take(i as int) =~= strokes(keys@));
            if node.children@.len() > 0 {
                lemma_some_value_below(*node);
                let more = choose|more: Seq<Stroke>|
                    more.len() > 0 && (#[trigger] node.stored(more)) is Some;
                lemma_node_through(*self, strokes(keys@), more, *node);
                assert(self.stored(strokes(keys@) + more) is Some);
            } else {
                assert forall|more: Seq<Stroke>| more.len() > 0 implies (#[trigger] self.stored(
                    strokes(keys@) + more,
                )) is None by {
                    lemma_node_through(*self, strokes(keys@), more, *node);
                }
            }
        }
        node.children.len() != 0
    }
}

/// A walk along `a` and then `b` is a walk along `b` from where `a` leads.
proof fn lemma_node_through<T>(t: Trie<T>, a: Seq<Stroke>, b: Seq<Stroke>, n: Trie<T>)
    requires
        t.node(a) == Some(n),
    ensures
        t.node(a + b) == n.node(b),
    decreases a.len(),
{
    if a.len() == 0 {
        assert(a + b =~= b);
    } else {
        let c = t.child(a[0]);
        lemma_node_through(t.children@[c].1, a.drop_first(), b, n);
        assert((a + b).drop_first() =~= a.drop_first() + b);
        assert((a + b)[0] == a[0]);
    }
}

/// Below a node with children of a live trie there is a value.
proof fn lemma_some_value_below<T>(t: Trie<T>)
    requires
        t.live(),
        t.children@.len() > 0,
    ensures
        exists|more: Seq<Stroke>| more.len() > 0 && (#[trigger] t.stored(more)) is Some,
    decreases t,
{
    let (key, sub) = t.children@[0];
    assert(t.child(t.children@[0].0@) == 0);
    let first = seq![key@];
    if sub.value is Some {
        assert(first.drop_first() =~= Seq::<Stroke>::empty());
        assert(t.node(first) == sub.node(first.drop_first()));
        assert(t.stored(first) is Some);
    } else {
        assert(sub.live());
        assert(decreases_to!(t => t.children@[0].1));
        lemma_some_value_below(sub);
        let more = choose|more: Seq<Stroke>|
            more.len() > 0 && (#[trigger] sub.stored(more)) is Some;
        let all = first + more;
        assert(all.drop_first() =~= more);
        assert(t.node(all) == sub.node(all.drop_first()));
        assert(t.stored(all) is Some);
    }
}

proof fn lemma_same_child<T>(
    a: Seq<(Key, Trie<T>)>,
    b: Seq<(Key, Trie<T>)>,
    s: Stroke,
    i: int,
)
    requires
        a.len() == b.len(),
        0 <= i,
        forall|j: int| 0 <= j < a.len() ==> (#[trigger] a[j]).0@ == b[j].0@,
    ensures
        child_from(a, s, i) == child_from(b, s, i),
    decreases a.len() - i,
{
    if i < a.len() {
        assert(a[i].0@ == b[i].0@);
        lemma_same_child(a, b, s, i + 1);
    }
}

proof fn lemma_live<T>(t: Trie<T>)
    requires
        forall|i: int|
            0 <= i < t.children@.len() ==> {
                &&& t.children@[i].1.live()
                &&& (t.children@[i].1.value is Some || t.children@[i].1.children@.len() > 0)
                &&& t.child((#[trigger] t.children@[i]).0@) == i
            },
    ensures
        t.live(),
{
    assert forall|i: int| 0 <= i < t.children@.len() implies {
        &&& decreases_to!(t => t.children@[i].1)
        &&& t.children@[i].1.live()
        &&& (t.children@[i].1.value is Some || t.children@[i].1.children@.len() > 0)
        &&& t.child((#[trigger] t.children@[i]).0@) == i
    } by {
        assert(decreases_to!(t => t.children));
        assert(decreases_to!(t.children => t.children@));
        assert(decreases_to!(t.children@ => t.children@[i]));
        assert(decreases_to!(t.children@[i] => t.children@[i].1));
    }
}

proof fn lemma_live_by_children<T>(a: Trie<T>, b: Trie<T>)
    requires
        a.live(),
        a.children == b.children,
    ensures
        b.live(),
{
    assert forall|i: int| 0 <= i < b.children@.len() implies {
        &&& b.children@[i].1.live()
        &&& (b.children@[i].1.value is Some || b.children@[i].1.children@.len() > 0)
        &&& b.child((#[trigger] b.children@[i]).0@) == i
    } by {
        assert(a.child(a.children@[i].0@) == i);
    }
    lemma_live(b);
}

/// Which mapping table applies.
#[derive(Clone, Copy, Debug, PartialEq, Eq, Structural)]
pub enum ModeClass {
    Normal,
    Visual,
    Insert,
}

/// A user mapping's right-hand side. `noremap` mappings expand WITHOUT
/// re-consulting the mapping table (vim's `:noremap` family); `map` mappings
/// re-resolve recursively, bounded by the engine's key guard.
pub struct Mapping {
    pub rhs: Vec<Key>,
    pub noremap: bool,
}

/// What a mapping expands to.
pub struct Rhs {
    pub keys: Seq<Stroke>,
    pub noremap: bool,
}

impl View for Mapping {
    type V = Rhs;

    open spec fn view(&self) -> Rhs {
        Rhs { keys: strokes(self.rhs@), noremap: self.noremap }
    }
}

impl Clone for Mapping {
    fn clone(&self) -> (m: Self)
        ensures
            m@ == self@,
    {
        Mapping { rhs: copy_keys(&self.rhs), noremap: self.noremap }
    }
}

pub open spec fn rhs_of(m: Option<Mapping>) -> Option<Rhs> {
    match m {
        Some(m) => Some(m@),
        None => None,
    }
}

/// The mappings of one table: what each key sequence expands to.
pub open spec fn mappings_of(t: Option<Trie<Mapping>>) -> spec_fn(Seq<Stroke>) -> Option<Rhs> {
    |keys: Seq<Stroke>|
        match t {
            Some(t) => rhs_of(t.stored(keys)),
            None => None,
        }
}

/// Strokes with the space bar in one spelling.
pub open spec fn canonical_strokes(keys: Seq<Stroke>) -> Seq<Stroke> {
    keys.map_values(|s: Stroke| s.canonical())
}

fn canonical_keys(keys: &[Key]) -> (r: Vec<Key>)
    ensures
        strokes(r@) == canonical_strokes(strokes(keys@)),
{
    let mut r: Vec<Key> = Vec::new();
    let mut i: usize = 0;
    while i < keys.len()
        invariant
            i <= keys@.len(),
            strokes(r@) == canonical_strokes(strokes(keys@)).take(i as int),
        decreases keys@.len() - i,
    {
        let ghost before = strokes(r@);
        let key = keys[i].clone().canonical();
        let ghost stroke = key@;
        r.push(key);
        proof {
            assert(strokes(r@) =~= before.push(stroke));
            assert(canonical_strokes(strokes(keys@)).take(i + 1) =~= before.push(stroke));
        }
        i = i + 1;
    }
    proof {
        assert(canonical_strokes(strokes(keys@)).take(i as int) =~= canonical_strokes(
            strokes(keys@),
        ));
    }
    r
}

/// User mappings (`:map` / `:noremap` families).
pub struct Keymaps {
    normal: Option<Trie<Mapping>>,
    visual: Option<Trie<Mapping>>,
    insert: Option<Trie<Mapping>>,
}

/// The user mappings of each class.
#[verifier::ext_equal]
pub struct Maps {
    pub normal: spec_fn(Seq<Stroke>) -> Option<Rhs>,
    pub visual: spec_fn(Seq<Stroke>) -> Option<Rhs>,
    pub insert: spec_fn(Seq<Stroke>) -> Option<Rhs>,
}

pub open spec fn no_maps() -> Maps {
    Maps {
        normal: |keys: Seq<Stroke>| None,
        visual: |keys: Seq<Stroke>| None,
        insert: |keys: Seq<Stroke>| None,
    }
}

/// One table with `from` mapped to `to`.
pub open spec fn with_mapping(
    table: spec_fn(Seq<Stroke>) -> Option<Rhs>,
    from: Seq<Stroke>,
    to: Rhs,
) -> spec_fn(Seq<Stroke>) -> Option<Rhs> {
    |keys: Seq<Stroke>|
        if keys == from {
            Some(to)
        } else {
            table(keys)
        }
}

impl Maps {
    pub open spec fn table(self, class: ModeClass) -> spec_fn(Seq<Stroke>) -> Option<Rhs> {
        match class {
            ModeClass::Normal => self.normal,
            ModeClass::Visual => self.visual,
            ModeClass::Insert => self.insert,
        }
    }

    /// The mappings once `from` expands to `to`. The space bar matches in
    /// either spelling.
    pub open spec fn mapped(self, class: ModeClass, from: Seq<Stroke>, to: Rhs) -> Maps {
        let table = with_mapping(self.table(class), canonical_strokes(from), to);
        match class {
            ModeClass::Normal => Maps { normal: table, ..self },
            ModeClass::Visual => Maps { visual: table, ..self },
            ModeClass::Insert => Maps { insert: table, ..self },
        }
    }
}

impl View for Keymaps {
    type V = Maps;

    closed spec fn view(&self) -> Maps {
        Maps {
            normal: mappings_of(self.normal),
            visual: mappings_of(self.visual),
            insert: mappings_of(self.insert),
        }
    }
}

pub open spec fn live_table(t: Option<Trie<Mapping>>) -> bool {
    t matches Some(t) ==> t.live()
}

/// Adds one mapping to a table.
fn add_mapping(t: Option<Trie<Mapping>>, from: &[Key], to: Mapping) -> (r: Option<Trie<Mapping>>)
    requires
        live_table(t),
    ensures
        live_table(r),
        mappings_of(r) == with_mapping(mappings_of(t), strokes(from@), to@),
{
    let ghost before = mappings_of(t);
    let mut trie = match t {
        Some(trie) => trie,
        None => Trie::new(),
    };
    let ghost fresh = trie;
    proof {
        assert forall|keys: Seq<Stroke>| rhs_of(#[trigger] fresh.stored(keys)) == before(keys) by {
        }
    }
    trie.insert(from, to);
    let r = Some(trie);
    proof {
        assert(mappings_of(r) =~= with_mapping(before, strokes(from@), to@));
    }
    r
}

impl Keymaps {
    #[verifier::type_invariant]
    spec fn tables_live(self) -> bool {
        live_table(self.normal) && live_table(self.visual) && live_table(self.insert)
    }

    pub fn new() -> (k: Self)
        ensures
            k@ == no_maps(),
    {
        Keymaps { normal: None, visual: None, insert: None }
    }

    pub fn map(&mut self, class: ModeClass, from: &[Key], to: Vec<Key>, noremap: bool)
        ensures
            final(self)@ == old(self)@.mapped(
                class,
                strokes(from@),
                Rhs { keys: strokes(to@), noremap },
            ),
    {
        proof {
            use_type_invariant(&*self);
        }
        let from = canonical_keys(from);
        let to = Mapping { rhs: to, noremap };
        let mut table: Option<Trie<Mapping>> = None;
        match class {
            ModeClass::Normal => {
                std::mem::swap(&mut table, &mut self.normal);
                self.normal = add_mapping(table, from.as_slice(), to);
            },
            ModeClass::Visual => {
                std::mem::swap(&mut table, &mut self.visual);
                self.visual = add_mapping(table, from.as_slice(), to);
            },
            ModeClass::Insert => {
                std::mem::swap(&mut table, &mut self.insert);
                self.insert = add_mapping(table, from.as_slice(), to);
            },
        }
    }

    pub fn map_str(&mut self, class: ModeClass, from: &str, to: &str)
        ensures
            final(self)@ == old(self)@.mapped(
                class,
                parsed_sequence(from@),
                Rhs { keys: parsed_sequence(to@), noremap: false },
            ),
    {
        self.map_str_noremap(class, from, to, false);
    }

    pub fn map_str_noremap(&mut self, class: ModeClass, from: &str, to: &str, noremap: bool)
        ensures
            final(self)@ == old(self)@.mapped(
                class,
                parsed_sequence(from@),
                Rhs { keys: parsed_sequence(to@), noremap },
            ),
    {
        let lhs = parse_key_sequence(from);
        let rhs = parse_key_sequence(to);
        self.map(class, lhs.as_slice(), rhs, noremap);
    }

    pub fn table(&self, class: ModeClass) -> (t: Option<&Trie<Mapping>>)
        ensures
            t matches Some(t) ==> t.live() && forall|keys: Seq<Stroke>| #[trigger]
                self@.table(class)(keys) == rhs_of(t.stored(keys)),
            t is None ==> forall|keys: Seq<Stroke>| #[trigger] self@.table(class)(keys) is None,
    {
        proof {
            use_type_invariant(self);
        }
        match class {
            ModeClass::Normal => self.normal.as_ref(),
            ModeClass::Visual => self.visual.as_ref(),
            ModeClass::Insert => self.insert.as_ref(),
        }
    }
}

impl Keymaps {
    /// How a queue of keys stands to the mappings of a class.
    pub fn look_up(&self, class: ModeClass, queue: &[Key]) -> (m: MappingMatch)
        ensures
            match m {
                MappingMatch::Match { used, expansion, noremap } => used == queue@.len()
                    && looked_up(self@.table(class), strokes(queue@)) == Lookup::Match(
                    Rhs { keys: strokes(expansion@), noremap },
                ),
                MappingMatch::Waiting => looked_up(self@.table(class), strokes(queue@)) is Waiting,
                MappingMatch::Nothing => looked_up(self@.table(class), strokes(queue@)) is Nothing,
            },
    {
        let table = self.table(class);
        proof {
            use_type_invariant(self);
            let stored = mappings_of(
                match table {
                    Some(t) => Some(*t),
                    None => None,
                },
            );
            assert(stored =~= self@.table(class));
        }
        lookup(table, queue)
    }
}

impl Default for Keymaps {
    fn default() -> (k: Self)
        ensures
            k@ == no_maps(),
    {
        Keymaps::new()
    }
}

/// Resolution of the pending input queue against the mapping table.
pub enum MappingMatch {
    /// A full mapping matched `used` keys; replay `expansion`.
    Match { used: usize, expansion: Vec<Key>, noremap: bool },
    /// The queue is a proper prefix of a mapping: keep waiting.
    Waiting,
    /// No mapping is involved; process input normally.
    Nothing,
}

/// How a queue of keys stands to a mapping table.
pub enum Lookup {
    Match(Rhs),
    Waiting,
    Nothing,
}

/// Some mapping goes on behind `queue`.
pub open spec fn map_continues(
    table: spec_fn(Seq<Stroke>) -> Option<Rhs>,
    queue: Seq<Stroke>,
) -> bool {
    exists|more: Seq<Stroke>| more.len() > 0 && (#[trigger] table(queue + more)) is Some
}

/// The whole queue is a mapping, the beginning of one, or neither.
#[verifier::opaque]
pub open spec fn looked_up(
    table: spec_fn(Seq<Stroke>) -> Option<Rhs>,
    queue: Seq<Stroke>,
) -> Lookup {
    if queue.len() == 0 {
        Lookup::Nothing
    } else {
        match table(queue) {
            Some(rhs) => Lookup::Match(rhs),
            None => if map_continues(table, queue) {
                Lookup::Waiting
            } else {
                Lookup::Nothing
            },
        }
    }
}

pub fn lookup(table: Option<&Trie<Mapping>>, queue: &[Key]) -> (m: MappingMatch)
    requires
        table matches Some(t) ==> t.live(),
    ensures
        ({
            let stored = mappings_of(
                match table {
                    Some(t) => Some(*t),
                    None => None,
                },
            );
            match m {
                MappingMatch::Match { used, expansion, noremap } => used == queue@.len()
                    && looked_up(stored, strokes(queue@)) == Lookup::Match(
                    Rhs { keys: strokes(expansion@), noremap },
                ),
                MappingMatch::Waiting => looked_up(stored, strokes(queue@)) is Waiting,
                MappingMatch::Nothing => looked_up(stored, strokes(queue@)) is Nothing,
            }
        }),
{
    proof {
        reveal(looked_up);
    }
    let table = match table {
        Some(table) => table,
        None => {
            return MappingMatch::Nothing;
        },
    };
    if queue.len() == 0 {
        return MappingMatch::Nothing;
    }
    let ghost stored = mappings_of(Some(*table));
    proof {
        assert forall|more: Seq<Stroke>| #[trigger]
            table.stored(strokes(queue@) + more) is Some == stored(
            strokes(queue@) + more,
        ) is Some by {
        }
        assert(table.continues(strokes(queue@)) == map_continues(stored, strokes(queue@))) by {
            if table.continues(strokes(queue@)) {
                let more = choose|more: Seq<Stroke>|
                    more.len() > 0 && (#[trigger] table.stored(strokes(queue@) + more)) is Some;
                assert(stored(strokes(queue@) + more) is Some);
            }
            if map_continues(stored, strokes(queue@)) {
                let more = choose|more: Seq<Stroke>|
                    more.len() > 0 && (#[trigger] stored(strokes(queue@) + more)) is Some;
                assert(table.stored(strokes(queue@) + more) is Some);
            }
        }
    }
    match table.get(queue) {
        Walk::Hit(mapping) => MappingMatch::Match {
            used: queue.len(),
            expansion: copy_keys(&mapping.rhs),
            noremap: mapping.noremap,
        },
        Walk::Pending => MappingMatch::Waiting,
        Walk::Miss => {
            // Miss = the whole queue cannot grow into any mapping. Shorter
            // suffixes are the callers' concern: keys were fed one at a
            // time, so a waitable prefix was already reported as Waiting on
            // an earlier feed. Nothing mapping-related is possible: fall
            // through to builtins.
            MappingMatch::Nothing
        },
    }
}

/// A mapping takes effect as soon as it is made.
pub proof fn mapping_is_found(maps: Maps, class: ModeClass, from: Seq<Stroke>, to: Rhs)
    requires
        from.len() > 0,
    ensures
        looked_up(maps.mapped(class, from, to).table(class), canonical_strokes(from))
            == Lookup::Match(to),
{
    reveal(looked_up);
    assert(maps.mapped(class, from, to).table(class)(canonical_strokes(from)) == Some(to));
}

/// Every proper beginning of a mapped sequence waits for the rest, unless it
/// is mapped itself.
pub proof fn mapping_prefix_waits(
    maps: Maps,
    class: ModeClass,
    from: Seq<Stroke>,
    to: Rhs,
    n: int,
)
    requires
        0 < n < from.len(),
        maps.table(class)(canonical_strokes(from).take(n)) is None,
    ensures
        looked_up(maps.mapped(class, from, to).table(class), canonical_strokes(from).take(n))
            is Waiting,
{
    reveal(looked_up);
    let table = maps.mapped(class, from, to).table(class);
    let keys = canonical_strokes(from);
    assert(keys.take(n) + keys.skip(n) =~= keys);
    assert(table(keys.take(n) + keys.skip(n)) is Some);
    assert(keys.take(n).len() != keys.len());
    assert(keys.take(n) != keys);
}

} // verus!
