//! Finite maps held as association lists with distinct keys.
//!
//! `KeyedVec` plays the part of a hash map whose keys are compared by their
//! views. Entries keep the order in which their keys were first inserted;
//! that order is the map's iteration order.

use vstd::prelude::*;
use vstd::pervasive::strictly_cloned;

verus! {

/// Keys that can be compared by value.
pub trait KeyEq: View + Sized {
    /// Whether equality and copying of keys behave as values.
    spec fn key_ok() -> bool;

    /// Whether two keys are equal.
    fn key_eq(&self, other: &Self) -> (r: bool)
        requires
            Self::key_ok(),
        ensures
            r == (self@ == other@),
    ;

    /// A copy of the key.
    fn key_clone(&self) -> (r: Self)
        requires
            Self::key_ok(),
        ensures
            r@ == self@,
    ;
}

/// Values of `T` whose clones equal them.
pub open spec fn clone_exact<T: Clone>() -> bool {
    forall|a: T, b: T| #[trigger] strictly_cloned(a, b) ==> a == b
}

/// Values of `T` whose `==` and clones behave as equality of values.
pub open spec fn faithful<T: PartialEq + Clone>() -> bool {
    vstd::laws_eq::obeys_concrete_eq::<T>() && clone_exact::<T>()
}

/// A value used as a key by value.
#[derive(Debug)]
pub struct Elem<T>(pub T);

impl<T> View for Elem<T> {
    type V = T;

    open spec fn view(&self) -> T {
        self.0
    }
}

impl<T: PartialEq + Clone> KeyEq for Elem<T> {
    open spec fn key_ok() -> bool {
        faithful::<T>()
    }

    fn key_eq(&self, other: &Self) -> (r: bool) {
        proof {
            reveal(vstd::laws_eq::obeys_concrete_eq);
        }
        self.0 == other.0
    }

    fn key_clone(&self) -> (r: Self) {
        let v = self.0.clone();
        proof {
            assert(strictly_cloned(self.0, v));
        }
        Elem(v)
    }
}

impl KeyEq for String {
    open spec fn key_ok() -> bool {
        true
    }

    fn key_eq(&self, other: &Self) -> (r: bool) {
        *self == *other
    }

    fn key_clone(&self) -> (r: Self) {
        self.clone()
    }
}

impl KeyEq for u128 {
    open spec fn key_ok() -> bool {
        true
    }

    fn key_eq(&self, other: &Self) -> (r: bool) {
        *self == *other
    }

    fn key_clone(&self) -> (r: Self) {
        *self
    }
}

impl<A: KeyEq, B: KeyEq> KeyEq for (A, B) {
    open spec fn key_ok() -> bool {
        A::key_ok() && B::key_ok()
    }

    fn key_eq(&self, other: &Self) -> (r: bool) {
        self.0.key_eq(&other.0) && self.1.key_eq(&other.1)
    }

    fn key_clone(&self) -> (r: Self) {
        (self.0.key_clone(), self.1.key_clone())
    }
}

/// A finite map from keys (compared by view) to values.
#[derive(Debug)]
pub struct KeyedVec<K: KeyEq, V> {
    entries: Vec<(K, V)>,
}

impl<K: KeyEq, V> KeyedVec<K, V> {
    /// Keys are distinct.
    pub closed spec fn wf(&self) -> bool {
        forall|i: int, j: int|
            0 <= i < self.entries.len() && 0 <= j < self.entries.len() && i != j
                ==> self.entries@[i].0@ != self.entries@[j].0@
    }

    /// The keys in iteration order.
    pub closed spec fn key_order(&self) -> Seq<K::V> {
        self.entries@.map_values(|e: (K, V)| e.0@)
    }

    /// The map from keys to values.
    pub closed spec fn map(&self) -> Map<K::V, V> {
        Map::new(
            |k: K::V| exists|i: int| 0 <= i < self.entries.len() && self.entries@[i].0@ == k,
            |k: K::V|
                self.entries@[choose|i: int|
                    0 <= i < self.entries.len() && self.entries@[i].0@ == k].1,
        )
    }

    /// The values in iteration order.
    pub open spec fn value_order(&self) -> Seq<V> {
        self.key_order().map_values(|k: K::V| self.map()[k])
    }

    proof fn lemma_entry(&self, i: int)
        requires
            self.wf(),
            0 <= i < self.entries.len(),
        ensures
            self.map().contains_key(self.entries@[i].0@),
            self.map()[self.entries@[i].0@] == self.entries@[i].1,
            self.key_order()[i] == self.entries@[i].0@,
    {
        let k = self.entries@[i].0@;
        assert(exists|j: int| 0 <= j < self.entries.len() && self.entries@[j].0@ == k);
        let j = choose|j: int| 0 <= j < self.entries.len() && self.entries@[j].0@ == k;
        assert(j == i);
    }

    /// The iteration order lists every key of the map once.
    pub proof fn lemma_key_order(&self)
        requires
            self.wf(),
        ensures
            self.key_order().no_duplicates(),
            self.key_order().len() == self.map().dom().len(),
            forall|k: K::V| #[trigger] self.map().contains_key(k) <==> self.key_order().contains(k),
            self.map().dom().finite(),
            self.key_order().to_set() == self.map().dom(),
    {
        let ko = self.key_order();
        assert forall|k: K::V| #[trigger] self.map().contains_key(k) <==> ko.contains(k) by {
            if self.map().contains_key(k) {
                let i = choose|i: int| 0 <= i < self.entries.len() && self.entries@[i].0@ == k;
                assert(ko[i] == k);
            }
            if ko.contains(k) {
                let i = choose|i: int| 0 <= i < ko.len() && ko[i] == k;
                assert(self.entries@[i].0@ == k);
            }
        }
        assert(ko.to_set() =~= self.map().dom());
        assert(ko.no_duplicates());
        ko.unique_seq_to_set();
    }

    /// An empty map.
    pub fn new() -> (m: Self)
        ensures
            m.wf(),
            m.map() == Map::<K::V, V>::empty(),
            m.key_order() == Seq::<K::V>::empty(),
    {
        let m = KeyedVec { entries: Vec::new() };
        proof {
            assert(m.map() =~= Map::<K::V, V>::empty());
            assert(m.key_order() =~= Seq::<K::V>::empty());
        }
        m
    }

    /// Number of entries.
    pub fn len(&self) -> (n: usize)
        requires
            self.wf(),
        ensures
            n == self.key_order().len(),
            n == self.map().dom().len(),
    {
        proof {
            self.lemma_key_order();
        }
        self.entries.len()
    }

    /// The position of a key in iteration order, if present.
    pub fn find(&self, k: &K) -> (r: Option<usize>)
        requires
            K::key_ok(),
            self.wf(),
        ensures
            r matches Some(i) ==> i < self.key_order().len() && self.key_order()[i as int] == k@,
            r is None <==> !self.map().contains_key(k@),
            self.map().contains_key(k@) <==> self.key_order().contains(k@),
    {
        proof {
            self.lemma_key_order();
        }
        let mut i: usize = 0;
        while i < self.entries.len()
            invariant
                self.wf(),
                K::key_ok(),
                i <= self.entries.len(),
                forall|j: int| 0 <= j < i ==> self.entries@[j].0@ != k@,
            decreases self.entries.len() - i,
        {
            if self.entries[i].0.key_eq(k) {
                proof {
                    self.lemma_entry(i as int);
                }
                return Some(i);
            }
            i = i + 1;
        }
        proof {
            if self.map().contains_key(k@) {
                let j = choose|j: int| 0 <= j < self.entries.len() && self.entries@[j].0@ == k@;
                assert(self.entries@[j].0@ == k@);
            }
        }
        None
    }

    /// The key and value at a position in iteration order.
    pub fn entry_at(&self, i: usize) -> (r: (&K, &V))
        requires
            self.wf(),
            i < self.key_order().len(),
        ensures
            r.0@ == self.key_order()[i as int],
            self.map().contains_key(r.0@),
            *r.1 == self.map()[r.0@],
            *r.1 == self.value_order()[i as int],
    {
        proof {
            self.lemma_entry(i as int);
        }
        let e = &self.entries[i];
        (&e.0, &e.1)
    }

    /// The value of a key, if present.
    pub fn get(&self, k: &K) -> (r: Option<&V>)
        requires
            K::key_ok(),
            self.wf(),
        ensures
            r matches Some(v) ==> self.map().contains_key(k@) && *v == self.map()[k@],
            r is None ==> !self.map().contains_key(k@),
    {
        match self.find(k) {
            Some(i) => {
                proof {
                    self.lemma_entry(i as int);
                }
                Some(&self.entries[i].1)
            },
            None => None,
        }
    }

    /// A mutable reference to the value of a key, if present.
    pub fn get_mut(&mut self, k: &K) -> (r: Option<&mut V>)
        requires
            K::key_ok(),
            old(self).wf(),
        ensures
            final(self).wf(),
            final(self).key_order() == old(self).key_order(),
            r is None ==> !old(self).map().contains_key(k@) && final(self).map() == old(self).map(),
            r matches Some(v) ==> {
                &&& old(self).map().contains_key(k@)
                &&& *v == old(self).map()[k@]
                &&& final(self).map() == old(self).map().insert(k@, *final(v))
            },
    {
        match self.find(k) {
            Some(i) => {
                proof {
                    self.lemma_entry(i as int);
                }
                proof {
                    Self::lemma_update_any(*self, i as int);
                }
                let e = &mut self.entries[i];
                let v = &mut e.1;
                Some(v)
            },
            None => None,
        }
    }

    /// Whether a key is present.
    pub fn contains_key(&self, k: &K) -> (r: bool)
        requires
            K::key_ok(),
            self.wf(),
        ensures
            r == self.map().contains_key(k@),
    {
        self.find(k).is_some()
    }

    proof fn lemma_update(old: Self, new: Self, i: int, v: V)
        requires
            old.wf(),
            new.wf(),
            0 <= i < old.entries.len(),
            new.entries@ == old.entries@.update(i, (new.entries@[i].0, v)),
            new.entries@[i].0@ == old.entries@[i].0@,
        ensures
            new.map() == old.map().insert(old.entries@[i].0@, v),
            new.key_order() == old.key_order(),
    {
        let k = old.entries@[i].0@;
        assert forall|x: K::V| #[trigger] new.map().contains_key(x) <==> old.map().insert(k, v).contains_key(x) by {
            if new.map().contains_key(x) {
                let j = choose|j: int| 0 <= j < new.entries.len() && new.entries@[j].0@ == x;
                assert(old.entries@[j].0@ == x);
            }
            if old.map().contains_key(x) {
                let j = choose|j: int| 0 <= j < old.entries.len() && old.entries@[j].0@ == x;
                assert(new.entries@[j].0@ == x);
            }
        }
        assert forall|x: K::V| #[trigger] new.map().contains_key(x) implies new.map()[x] == old.map().insert(k, v)[x] by {
            let j = choose|j: int| 0 <= j < new.entries.len() && new.entries@[j].0@ == x;
            if x == k {
                assert(j == i);
            } else {
                let j2 = choose|j2: int| 0 <= j2 < old.entries.len() && old.entries@[j2].0@ == x;
                assert(j == j2);
            }
        }
        assert(new.map() =~= old.map().insert(k, v));
        assert(new.key_order() =~= old.key_order());
    }

    proof fn lemma_update_any(old: Self, i: int)
        requires
            old.wf(),
            0 <= i < old.entries.len(),
        ensures
            forall|new: Self|
                #![trigger new.map()]
                new.wf() && new.entries@ == old.entries@.update(i, new.entries@[i])
                    && new.entries@[i].0@ == old.entries@[i].0@ ==> new.map() == old.map().insert(
                    old.entries@[i].0@,
                    new.entries@[i].1,
                ),
    {
        assert forall|new: Self|
            #![trigger new.map()]
            new.wf() && new.entries@ == old.entries@.update(i, new.entries@[i])
                && new.entries@[i].0@ == old.entries@[i].0@ implies new.map() == old.map().insert(
                old.entries@[i].0@,
                new.entries@[i].1,
            ) by {
            Self::lemma_update(old, new, i, new.entries@[i].1);
        }
    }

    /// Sets the value of a key, returning its previous value.
    pub fn insert(&mut self, k: K, v: V) -> (r: Option<V>)
        requires
            K::key_ok(),
            old(self).wf(),
        ensures
            final(self).wf(),
            final(self).map() == old(self).map().insert(k@, v),
            r matches Some(p) ==> old(self).map().contains_key(k@) && p == old(self).map()[k@],
            r is None ==> !old(self).map().contains_key(k@),
            old(self).map().contains_key(k@) ==> final(self).key_order() == old(self).key_order(),
            !old(self).map().contains_key(k@) ==> final(self).key_order() == old(self).key_order().push(k@),
    {
        proof {
        }
        match self.find(&k) {
            Some(i) => {
                proof {
                    self.lemma_entry(i as int);
                }
                let ghost old_self = *self;
                let ghost ki = self.entries@[i as int].0;
                let mut entries = Vec::new();
                std::mem::swap(&mut entries, &mut self.entries);
                let (key, old_v) = entries.remove(i);
                entries.insert(i, (key, v));
                std::mem::swap(&mut entries, &mut self.entries);
                proof {
                    assert(self.entries@ =~= old_self.entries@.update(i as int, (ki, v)));
                    Self::lemma_update(old_self, *self, i as int, v);
                }
                Some(old_v)
            },
            None => {
                let ghost old_self = *self;
                let mut entries = Vec::new();
                std::mem::swap(&mut entries, &mut self.entries);
                entries.push((k, v));
                proof {
                    assert forall|i: int, j: int|
                        0 <= i < entries.len() && 0 <= j < entries.len() && i != j
                            implies entries@[i].0@ != entries@[j].0@ by {
                        if i < old_self.entries.len() && j < old_self.entries.len() {
                        } else if i == old_self.entries.len() {
                            assert(old_self.key_order()[j] == entries@[j].0@);
                        } else {
                            assert(old_self.key_order()[i] == entries@[i].0@);
                        }
                    }
                }
                std::mem::swap(&mut entries, &mut self.entries);
                proof {
                    let n = old_self.entries.len();
                    assert forall|x: K::V| #[trigger] self.map().contains_key(x)
                        <==> old_self.map().insert(k@, v).contains_key(x) by {
                        if self.map().contains_key(x) {
                            let j = choose|j: int| 0 <= j < self.entries.len() && self.entries@[j].0@ == x;
                            if j < n {
                                assert(old_self.entries@[j].0@ == x);
                            }
                        }
                        if old_self.map().contains_key(x) {
                            let j = choose|j: int| 0 <= j < old_self.entries.len() && old_self.entries@[j].0@ == x;
                            assert(self.entries@[j].0@ == x);
                        }
                        if x == k@ {
                            assert(self.entries@[n as int].0@ == x);
                        }
                    }
                    assert forall|x: K::V| #[trigger] self.map().contains_key(x) implies self.map()[x]
                        == old_self.map().insert(k@, v)[x] by {
                        let j = choose|j: int| 0 <= j < self.entries.len() && self.entries@[j].0@ == x;
                        if x == k@ {
                            assert(self.entries@[n as int].0@ == x);
                            assert(j == n);
                        } else {
                            let j2 = choose|j2: int| 0 <= j2 < old_self.entries.len() && old_self.entries@[j2].0@ == x;
                            assert(self.entries@[j2].0@ == x);
                            assert(j == j2);
                        }
                    }
                    assert(self.map() =~= old_self.map().insert(k@, v));
                    assert(self.key_order() =~= old_self.key_order().push(k@));
                }
                None
            },
        }
    }

    /// Removes the entry at a position in iteration order.
    pub fn remove_at(&mut self, i: usize) -> (r: (K, V))
        requires
            old(self).wf(),
            i < old(self).key_order().len(),
        ensures
            final(self).wf(),
            r.0@ == old(self).key_order()[i as int],
            old(self).map().contains_key(r.0@),
            r.1 == old(self).map()[r.0@],
            final(self).map() == old(self).map().remove(r.0@),
            final(self).key_order() == old(self).key_order().remove(i as int),
    {
        proof {
            self.lemma_entry(i as int);
        }
        let ghost old_self = *self;
        let mut entries = Vec::new();
        std::mem::swap(&mut entries, &mut self.entries);
        let e = entries.remove(i);
        proof {
            assert(entries@ =~= old_self.entries@.remove(i as int));
        }
        std::mem::swap(&mut entries, &mut self.entries);
        proof {
            let k = e.0@;
            assert forall|x: K::V| #[trigger] self.map().contains_key(x)
                <==> old_self.map().remove(k).contains_key(x) by {
                if self.map().contains_key(x) {
                    let j = choose|j: int| 0 <= j < self.entries.len() && self.entries@[j].0@ == x;
                    if j < i {
                        assert(old_self.entries@[j].0@ == x);
                    } else {
                        assert(old_self.entries@[j + 1].0@ == x);
                    }
                }
                if old_self.map().contains_key(x) && x != k {
                    let j = choose|j: int| 0 <= j < old_self.entries.len() && old_self.entries@[j].0@ == x;
                    if j < i {
                        assert(self.entries@[j].0@ == x);
                    } else {
                        assert(j != i);
                        assert(self.entries@[j - 1].0@ == x);
                    }
                }
            }
            assert forall|x: K::V| #[trigger] self.map().contains_key(x) implies self.map()[x]
                == old_self.map().remove(k)[x] by {
                let j = choose|j: int| 0 <= j < self.entries.len() && self.entries@[j].0@ == x;
                let j2 = choose|j2: int| 0 <= j2 < old_self.entries.len() && old_self.entries@[j2].0@ == x;
                if j < i {
                    assert(old_self.entries@[j].0@ == x);
                    assert(j2 == j);
                } else {
                    assert(old_self.entries@[j + 1].0@ == x);
                    assert(j2 == j + 1);
                }
            }
            assert(self.map() =~= old_self.map().remove(k));
            assert(self.key_order() =~= old_self.key_order().remove(i as int));
        }
        e
    }

    /// Removes a key, returning its value if it was present.
    pub fn remove(&mut self, k: &K) -> (r: Option<V>)
        requires
            K::key_ok(),
            old(self).wf(),
        ensures
            final(self).wf(),
            final(self).map() == old(self).map().remove(k@),
            r matches Some(v) ==> old(self).map().contains_key(k@) && v == old(self).map()[k@],
            r is None ==> !old(self).map().contains_key(k@),
    {
        match self.find(k) {
            Some(i) => {
                let (_, v) = self.remove_at(i);
                Some(v)
            },
            None => {
                proof {
                    assert(old(self).map().remove(k@) =~= old(self).map());
                }
                None
            },
        }
    }
}

impl<K: KeyEq, V: Copy> KeyedVec<K, V> {
    /// A copy of the map.
    pub fn copy(&self) -> (m: Self)
        requires
            K::key_ok(),
        ensures
            self.wf() ==> m.wf() && m.map() == self.map(),
            m.key_order() == self.key_order(),
            m.map().dom() == self.map().dom(),
    {
        let mut entries: Vec<(K, V)> = Vec::new();
        let mut i: usize = 0;
        while i < self.entries.len()
            invariant
                K::key_ok(),
                i <= self.entries.len(),
                entries@.len() == i,
                forall|j: int| 0 <= j < i ==> (#[trigger] entries@[j]).0@ == self.entries@[j].0@ && entries@[j].1 == self.entries@[j].1,
            decreases self.entries.len() - i,
        {
            let k = self.entries[i].0.key_clone();
            let v = self.entries[i].1;
            entries.push((k, v));
            i = i + 1;
        }
        let m = KeyedVec { entries };
        proof {
            assert(m.key_order() =~= self.key_order());
            assert forall|k: K::V| #[trigger] m.map().contains_key(k) <==> self.map().contains_key(k) by {
                if m.map().contains_key(k) {
                    let j = choose|j: int| 0 <= j < m.entries.len() && m.entries@[j].0@ == k;
                    assert(self.entries@[j].0@ == k);
                }
                if self.map().contains_key(k) {
                    let j = choose|j: int| 0 <= j < self.entries.len() && self.entries@[j].0@ == k;
                    assert(m.entries@[j].0@ == k);
                }
            }
            assert(m.map().dom() =~= self.map().dom());
        }
        proof {
          if self.wf() {
            assert forall|k: K::V| #[trigger] m.map().contains_key(k) <==> self.map().contains_key(k) by {
                if m.map().contains_key(k) {
                    let j = choose|j: int| 0 <= j < m.entries.len() && m.entries@[j].0@ == k;
                    assert(self.entries@[j].0@ == k);
                }
                if self.map().contains_key(k) {
                    let j = choose|j: int| 0 <= j < self.entries.len() && self.entries@[j].0@ == k;
                    assert(m.entries@[j].0@ == k);
                }
            }
            assert forall|k: K::V| #[trigger] m.map().contains_key(k) implies m.map()[k] == self.map()[k] by {
                let j = choose|j: int| 0 <= j < m.entries.len() && m.entries@[j].0@ == k;
                let j2 = choose|j2: int| 0 <= j2 < self.entries.len() && self.entries@[j2].0@ == k;
                assert(m.entries@[j2].0@ == k);
                assert(j == j2);
            }
            assert(m.map() =~= self.map());
          }
        }
        m
    }
}

impl<K: KeyEq + Clone, V: Clone> KeyedVec<K, V> {
    /// The keys in iteration order.
    pub closed spec fn keys_seq(&self) -> Seq<K> {
        self.entries@.map_values(|e: (K, V)| e.0)
    }

    /// The values in iteration order.
    pub closed spec fn vals_seq(&self) -> Seq<V> {
        self.entries@.map_values(|e: (K, V)| e.1)
    }

    /// A map with the same keys and values, each cloned.
    pub fn clone_entries(&self) -> (m: Self)
        ensures
            m.keys_seq().len() == self.keys_seq().len(),
            m.vals_seq().len() == self.vals_seq().len(),
            forall|i: int| 0 <= i < self.keys_seq().len() ==> strictly_cloned(#[trigger] self.keys_seq()[i], m.keys_seq()[i])
                && strictly_cloned(self.vals_seq()[i], m.vals_seq()[i]),
    {
        let mut entries: Vec<(K, V)> = Vec::new();
        let mut i: usize = 0;
        while i < self.entries.len()
            invariant
                i <= self.entries.len(),
                entries@.len() == i,
                forall|j: int| 0 <= j < i ==> strictly_cloned(self.entries@[j].0, (#[trigger] entries@[j]).0)
                    && strictly_cloned(self.entries@[j].1, entries@[j].1),
            decreases self.entries.len() - i,
        {
            let k = self.entries[i].0.clone();
            let v = self.entries[i].1.clone();
            entries.push((k, v));
            i = i + 1;
        }
        KeyedVec { entries }
    }
}

impl<K: KeyEq + Clone, V: Clone + View> KeyedVec<K, V> {
    /// A map whose keys are exact clones of this one's and whose values are
    /// clones with the same views has the same keys, and values of the same
    /// views.
    pub proof fn lemma_view_clone(&self, other: &Self)
        requires
            self.wf(),
            clone_exact::<K>(),
            forall|a: V, b: V| #[trigger] strictly_cloned(a, b) ==> a@ == b@,
            other.keys_seq().len() == self.keys_seq().len(),
            other.vals_seq().len() == self.vals_seq().len(),
            forall|i: int| 0 <= i < self.keys_seq().len() ==> strictly_cloned(#[trigger] self.keys_seq()[i], other.keys_seq()[i])
                && strictly_cloned(self.vals_seq()[i], other.vals_seq()[i]),
        ensures
            other.wf(),
            other.key_order() == self.key_order(),
            other.map().dom() == self.map().dom(),
            forall|k: K::V| #[trigger] other.map().contains_key(k) ==> other.map()[k]@ == self.map()[k]@
                && strictly_cloned(self.map()[k], other.map()[k]),
    {
        assert forall|i: int| 0 <= i < self.entries.len() implies other.entries@[i].0 == self.entries@[i].0
            && other.entries@[i].1@ == self.entries@[i].1@ by {
            assert(strictly_cloned(self.keys_seq()[i], other.keys_seq()[i]));
            assert(strictly_cloned(self.vals_seq()[i], other.vals_seq()[i]));
            assert(self.keys_seq()[i] == self.entries@[i].0);
            assert(other.keys_seq()[i] == other.entries@[i].0);
            assert(self.vals_seq()[i] == self.entries@[i].1);
            assert(other.vals_seq()[i] == other.entries@[i].1);
        }
        assert(other.key_order() =~= self.key_order());
        assert(other.map().dom() =~= self.map().dom());
        assert forall|k: K::V| #[trigger] other.map().contains_key(k) implies other.map()[k]@ == self.map()[k]@
            && strictly_cloned(self.map()[k], other.map()[k]) by {
            let j = choose|j: int| 0 <= j < other.entries.len() && other.entries@[j].0@ == k;
            let j2 = choose|j2: int| 0 <= j2 < self.entries.len() && self.entries@[j2].0@ == k;
            assert(other.entries@[j2].0@ == k);
            assert(j == j2);
            assert(self.keys_seq()[j] == self.entries@[j].0);
            assert(strictly_cloned(self.vals_seq()[j], other.vals_seq()[j]));
        }
    }
}

} // verus!
