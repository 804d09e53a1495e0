//! OR-Set (Observed-Remove Set) CRDT implementation.

use vstd::prelude::*;
use vstd::pervasive::strictly_cloned;
use crate::keyed::{Elem, KeyEq, KeyedVec, clone_exact, faithful};
use crate::rhc::crdt::{ActorId, CRDT};
use crate::rhc::hlc::HLCTimestamp;

verus! {

/// A unique tag of an add operation: the actor and its timestamp.
pub type Tag = (ActorId, HLCTimestamp);

/// The value of a tag.
pub type TagView = (Seq<char>, HLCTimestamp);

/// A set of tags.
#[derive(Debug)]
pub struct TagSet {
    tags: KeyedVec<Tag, ()>,
}

impl View for TagSet {
    type V = Set<TagView>;

    closed spec fn view(&self) -> Set<TagView> {
        self.tags.map().dom()
    }
}

impl TagSet {
    /// The internal consistency of the set.
    pub closed spec fn wf(&self) -> bool {
        self.tags.wf()
    }

    /// An empty set of tags.
    pub fn new() -> (s: Self)
        ensures
            s.wf(),
            s@ == Set::<TagView>::empty(),
    {
        let s = TagSet { tags: KeyedVec::new() };
        proof {
            assert(s@ =~= Set::<TagView>::empty());
        }
        s
    }

    /// Number of tags.
    pub fn len(&self) -> (n: usize)
        requires
            self.wf(),
        ensures
            n == self@.len(),
    {
        self.tags.len()
    }

    /// Whether a tag is in the set.
    pub fn contains(&self, tag: &Tag) -> (r: bool)
        requires
            self.wf(),
        ensures
            r == self@.contains(tag@),
    {
        self.tags.contains_key(tag)
    }

    /// Adds a tag.
    pub fn insert(&mut self, tag: Tag)
        requires
            old(self).wf(),
        ensures
            final(self).wf(),
            final(self)@ == old(self)@.insert(tag@),
    {
        let _ = self.tags.insert(tag, ());
        proof {
            assert(self@ =~= old(self)@.insert(tag@));
        }
    }

    /// Adds all tags of `other`.
    pub fn extend(&mut self, other: &TagSet)
        requires
            old(self).wf(),
            other.wf(),
        ensures
            final(self).wf(),
            final(self)@ == old(self)@.union(other@),
    {
        proof {
            other.tags.lemma_key_order();
        }
        let ghost ko = other.tags.key_order();
        let n = other.tags.len();
        let mut i: usize = 0;
        while i < n
            invariant
                self.wf(),
                other.wf(),
                ko == other.tags.key_order(),
                n == ko.len(),
                forall|k: TagView| #[trigger] other@.contains(k) <==> ko.contains(k),
                i <= n,
                self@ == old(self)@.union(Set::new(|k: TagView| ko.take(i as int).contains(k))),
            decreases n - i,
        {
            let (tag, _) = other.tags.entry_at(i);
            let t = tag.key_clone();
            self.insert(t);
            proof {
                let k = ko[i as int];
                assert forall|x: TagView| #[trigger] ko.take(i + 1).contains(x) <==> (ko.take(i as int).contains(x) || x == k) by {
                    if ko.take(i + 1).contains(x) {
                        let t = ko.take(i + 1);
                        let y = choose|y: int| 0 <= y < t.len() && #[trigger] t[y] == x;
                        if y < i {
                            assert(ko.take(i as int)[y] == x);
                        }
                    }
                    if ko.take(i as int).contains(x) {
                        let t = ko.take(i as int);
                        let y = choose|y: int| 0 <= y < t.len() && #[trigger] t[y] == x;
                        assert(ko.take(i + 1)[y] == x);
                    }
                    if x == k {
                        assert(ko.take(i + 1)[i as int] == x);
                    }
                }
                assert(self@ =~= old(self)@.union(Set::new(|k: TagView| ko.take(i + 1).contains(k))));
            }
            i = i + 1;
        }
        proof {
            assert(ko.take(n as int) =~= ko);
            assert(Set::new(|k: TagView| ko.take(n as int).contains(k)) =~= other@);
        }
    }
}

proof fn lemma_push_to_set<A>(s: Seq<A>, x: A)
    ensures
        s.push(x).to_set() == s.to_set().insert(x),
{
    let t = s.push(x);
    assert forall|y: A| #[trigger] t.to_set().contains(y) == s.to_set().insert(x).contains(y) by {
        if t.contains(y) {
            let j = choose|j: int| 0 <= j < t.len() && t[j] == y;
            if j < s.len() {
                assert(s[j] == y);
            }
        }
        if s.contains(y) {
            let j = choose|j: int| 0 <= j < s.len() && s[j] == y;
            assert(t[j] == y);
        }
        if y == x {
            assert(t[s.len() as int] == y);
        }
    }
    assert(t.to_set() =~= s.to_set().insert(x));
}

impl TagSet {
    /// The tags are finitely many.
    pub proof fn lemma_finite(&self)
        requires
            self.wf(),
        ensures
            self@.finite(),
    {
        self.tags.lemma_key_order();
    }

    /// Takes a tag out.
    pub fn remove(&mut self, tag: &Tag)
        requires
            old(self).wf(),
        ensures
            final(self).wf(),
            final(self)@ == old(self)@.remove(tag@),
    {
        let _ = self.tags.remove(tag);
        proof {
            assert(self@ =~= old(self)@.remove(tag@));
        }
    }

    /// Takes out every tag of `other`.
    pub fn subtract(&mut self, other: &TagSet)
        requires
            old(self).wf(),
            other.wf(),
        ensures
            final(self).wf(),
            final(self)@ == old(self)@.difference(other@),
    {
        proof {
            other.tags.lemma_key_order();
        }
        let ghost ko = other.tags.key_order();
        let n = other.tags.len();
        let mut i: usize = 0;
        proof {
            assert(old(self)@.difference(ko.take(0).to_set()) =~= old(self)@);
        }
        while i < n
            invariant
                self.wf(),
                other.wf(),
                ko == other.tags.key_order(),
                n == ko.len(),
                ko.to_set() == other@,
                i <= n,
                self@ == old(self)@.difference(ko.take(i as int).to_set()),
            decreases n - i,
        {
            let (tag, _) = other.tags.entry_at(i);
            self.remove(tag);
            proof {
                assert(ko.take(i + 1) =~= ko.take(i as int).push(ko[i as int]));
                lemma_push_to_set(ko.take(i as int), ko[i as int]);
                assert(self@ =~= old(self)@.difference(ko.take(i + 1).to_set()));
            }
            i = i + 1;
        }
        proof {
            assert(ko.take(n as int) =~= ko);
        }
    }
}

impl TagSet {
    /// Whether every tag of this set is in `other`.
    pub fn is_subset_of(&self, other: &TagSet) -> (r: bool)
        requires
            self.wf(),
            other.wf(),
        ensures
            r == self@.subset_of(other@),
    {
        proof {
            self.tags.lemma_key_order();
        }
        let ghost ko = self.tags.key_order();
        let n = self.tags.len();
        let mut i: usize = 0;
        while i < n
            invariant
                self.wf(),
                other.wf(),
                ko == self.tags.key_order(),
                n == ko.len(),
                i <= n,
                forall|k: TagView| #[trigger] self@.contains(k) <==> ko.contains(k),
                forall|j: int| 0 <= j < i ==> other@.contains(#[trigger] ko[j]),
            decreases n - i,
        {
            let (t, _) = self.tags.entry_at(i);
            if !other.contains(t) {
                proof {
                    assert(ko.contains(ko[i as int]));
                }
                return false;
            }
            i = i + 1;
        }
        proof {
            assert forall|k: TagView| self@.contains(k) implies other@.contains(k) by {
                let j = choose|j: int| 0 <= j < ko.len() && #[trigger] ko[j] == k;
                assert(other@.contains(ko[j]));
            }
        }
        true
    }

    /// Whether both sets hold the same tags.
    pub fn same_as(&self, other: &TagSet) -> (r: bool)
        requires
            self.wf(),
            other.wf(),
        ensures
            r == (self@ == other@),
    {
        let r = self.is_subset_of(other) && other.is_subset_of(self);
        proof {
            if r {
                assert(self@ =~= other@);
            }
        }
        r
    }
}

impl Clone for TagSet {
    fn clone(&self) -> (s: Self)
        ensures
            s@ == self@,
            self.wf() ==> s.wf(),
    {
        proof {
            assert(self.tags.map().dom() == self@);
        }
        TagSet { tags: self.tags.copy() }
    }
}

/// The values behind a sequence of references.
pub open spec fn unref<T>(s: Seq<&T>) -> Seq<T> {
    Seq::new(s.len(), |i: int| *s[i])
}

/// The tags of an element, none if absent.
pub open spec fn tags_of<T>(m: Map<T, Set<TagView>>, e: T) -> Set<TagView> {
    if m.contains_key(e) {
        m[e]
    } else {
        Set::empty()
    }
}

/// Union of two OR-Set states: every element of either, with the union of
/// its tags.
pub open spec fn union_tags<T>(a: Map<T, Set<TagView>>, b: Map<T, Set<TagView>>) -> Map<T, Set<TagView>> {
    Map::new(|e: T| a.contains_key(e) || b.contains_key(e), |e: T| tags_of(a, e).union(tags_of(b, e)))
}

/// A state after dropping the tags `r`: each element keeps its tags not in
/// `r`, and an element left with none is gone.
pub open spec fn purged<T>(m: Map<T, Set<TagView>>, r: Set<TagView>) -> Map<T, Set<TagView>> {
    Map::new(|e: T| m.contains_key(e) && m[e].difference(r) != Set::<TagView>::empty(), |e: T| m[e].difference(r))
}

/// The merge of two OR-Set states, each with the tags it has removed: the
/// union of their tags, less every tag either has removed.
pub open spec fn or_merge<T>(a: Map<T, Set<TagView>>, ra: Set<TagView>, b: Map<T, Set<TagView>>, rb: Set<TagView>) -> Map<T, Set<TagView>> {
    purged(union_tags(a, b), ra.union(rb))
}

/// OR-Set CRDT - supports concurrent add/remove operations.
/// Each element has a set of unique tags (actor_id, timestamp);
/// an element is in the set if it has at least one tag. A remove records
/// the tags it observed, so that a merge does not bring them back.
pub struct ORSet<T: Clone + PartialEq> {
    /// Map from element to set of tags (actor_id, timestamp)
    elements: KeyedVec<Elem<T>, TagSet>,
    /// The tags removed so far
    removed: TagSet,
}

impl<T: Clone + PartialEq> View for ORSet<T> {
    type V = Map<T, Set<TagView>>;

    closed spec fn view(&self) -> Map<T, Set<TagView>> {
        self.elements.map().map_values(|s: TagSet| s@)
    }
}

impl<T: Clone + PartialEq> ORSet<T> {
    /// The internal consistency of the set.
    pub closed spec fn wf(&self) -> bool {
        &&& self.elements.wf()
        &&& forall|e: T| #[trigger] self.elements.map().contains_key(e) ==> self.elements.map()[e].wf()
        &&& self.removed.wf()
    }

    /// The tags removed so far.
    pub closed spec fn removed_tags(&self) -> Set<TagView> {
        self.removed@
    }

    /// The elements in iteration order.
    pub closed spec fn element_order(&self) -> Seq<T> {
        self.elements.key_order()
    }

    pub fn new() -> (s: Self)
        ensures
            s.wf(),
            s@ == Map::<T, Set<TagView>>::empty(),
            s.removed_tags() == Set::<TagView>::empty(),
            s.element_order() == Seq::<T>::empty(),
    {
        let s = Self { elements: KeyedVec::new(), removed: TagSet::new() };
        proof {
            assert(s@ =~= Map::<T, Set<TagView>>::empty());
        }
        s
    }

    /// Add an element to the set with the tag (actor, timestamp)
    pub fn add(&mut self, element: T, actor: ActorId, timestamp: HLCTimestamp)
        requires
            old(self).wf(),
            faithful::<T>(),
        ensures
            final(self).wf(),
            final(self)@ == old(self)@.insert(element, tags_of(old(self)@, element).insert((actor@, timestamp))),
            final(self).removed_tags() == old(self).removed_tags(),
    {
        let key = Elem(element);
        let tag = (actor, timestamp);
        let ghost tv = tag@;
        let ghost before = self.elements.map();
        match self.elements.get_mut(&key) {
            Some(tags) => {
                tags.insert(tag);
            },
            None => {
                let mut tags = TagSet::new();
                tags.insert(tag);
                let _ = self.elements.insert(key, tags);
            },
        }
        proof {
            assert(self@ =~= old(self)@.insert(element, tags_of(old(self)@, element).insert(tv)));
        }
    }

    /// Remove an element from the set: the tags it has now (the ones this
    /// replica observed) are recorded as removed.
    pub fn remove(&mut self, element: &T)
        requires
            old(self).wf(),
            faithful::<T>(),
        ensures
            final(self).wf(),
            final(self)@ == old(self)@.remove(*element),
            final(self).removed_tags() == old(self).removed_tags().union(tags_of(old(self)@, *element)),
    {
        let key = Elem(element.clone());
        proof {
            assert(strictly_cloned(*element, key.0));
        }
        match self.elements.remove(&key) {
            Some(tags) => {
                self.removed.extend(&tags);
            },
            None => {
                proof {
                    assert(old(self).removed_tags().union(tags_of(old(self)@, *element)) =~= old(self).removed_tags());
                }
            },
        }
        proof {
            assert(self@ =~= old(self)@.remove(*element));
        }
    }

    /// Check if an element is in the set
    pub fn contains(&self, element: &T) -> (r: bool)
        requires
            self.wf(),
            faithful::<T>(),
        ensures
            r == self@.contains_key(*element),
    {
        let key = Elem(element.clone());
        proof {
            assert(strictly_cloned(*element, key.0));
        }
        self.elements.contains_key(&key)
    }

    /// Get all elements in the set, in iteration order
    pub fn elements(&self) -> (r: Vec<&T>)
        requires
            self.wf(),
        ensures
            unref(r@) == self.element_order(),
            self@.dom() == self.element_order().to_set(),
            self.element_order().no_duplicates(),
    {
        proof {
            self.elements.lemma_key_order();
            assert(self@.dom() =~= self.elements.map().dom());
        }
        let n = self.elements.len();
        let mut r: Vec<&T> = Vec::new();
        let mut i: usize = 0;
        while i < n
            invariant
                self.wf(),
                n == self.element_order().len(),
                i <= n,
                r@.len() == i,
                unref(r@) == self.element_order().take(i as int),
            decreases n - i,
        {
            let (k, _) = self.elements.entry_at(i);
            let ghost before = r@;
            r.push(&k.0);
            proof {
                assert(r@ == before.push(&k.0));
                assert(k.0 == self.element_order()[i as int]);
                assert forall|j: int| 0 <= j < i implies #[trigger] unref(r@)[j] == self.element_order()[j] by {
                    assert(r@[j] == before[j]);
                    assert(unref(before)[j] == *before[j]);
                    assert(unref(before)[j] == self.element_order().take(i as int)[j]);
                    assert(unref(r@)[j] == *r@[j]);
                }
                assert(unref(r@)[i as int] == k.0);
                assert(unref(r@) =~= self.element_order().take(i + 1));
            }
            i = i + 1;
        }
        proof {
            assert(self.element_order().take(n as int) =~= self.element_order());
        }
        r
    }

    /// Get the tags for an element
    pub fn tags(&self, element: &T) -> (r: Option<&TagSet>)
        requires
            self.wf(),
            faithful::<T>(),
        ensures
            r matches Some(t) ==> self@.contains_key(*element) && t@ == self@[*element] && t.wf(),
            r is None ==> !self@.contains_key(*element),
    {
        let key = Elem(element.clone());
        proof {
            assert(strictly_cloned(*element, key.0));
        }
        self.elements.get(&key)
    }
}

impl<T: Clone + PartialEq> Clone for ORSet<T> {
    fn clone(&self) -> (s: Self)
        ensures
            faithful::<T>() && self.wf() ==> s.wf() && s@ == self@ && s.removed_tags() == self.removed_tags(),
    {
        let elements = self.elements.clone_entries();
        let s = ORSet { elements, removed: self.removed.clone() };
        proof {
            if faithful::<T>() && self.wf() {
                assert forall|a: Elem<T>, b: Elem<T>| #[trigger] strictly_cloned(a, b) implies a == b by {
                    assert(strictly_cloned(a.0, b.0));
                }
                assert forall|a: TagSet, b: TagSet| #[trigger] strictly_cloned(a, b) implies a@ == b@ by {}
                self.elements.lemma_view_clone(&s.elements);
                assert(s@ =~= self@);
                assert forall|e: T| #[trigger] s.elements.map().contains_key(e) implies s.elements.map()[e].wf() by {
                    assert(strictly_cloned(self.elements.map()[e], s.elements.map()[e]));
                }
            }
        }
        s
    }
}

impl<T: Clone + PartialEq> Clone for Elem<T> {
    fn clone(&self) -> (e: Self)
        ensures
            strictly_cloned(self.0, e.0),
    {
        Elem(self.0.clone())
    }
}

impl<T: Clone + PartialEq> CRDT for ORSet<T> {
    open spec fn crdt_wf(&self) -> bool {
        self.wf() && faithful::<T>()
    }

    /// Every element of either set, with the union of its tags, less the
    /// tags either has removed (an element left with none is gone); the
    /// removed tags of both are kept.
    fn merge(&mut self, other: &Self)
        ensures
            final(self)@ == or_merge(old(self)@, old(self).removed_tags(), other@, other.removed_tags()),
            final(self).removed_tags() == old(self).removed_tags().union(other.removed_tags()),
    {
        self.absorb(other);
        self.removed.extend(&other.removed);
        self.purge();
    }

    /// An OR-Set has no single happens-before relationship.
    fn happens_before(&self, _other: &Self) -> (r: bool)
        ensures
            !r,
    {
        false
    }
}

impl<T: Clone + PartialEq> ORSet<T> {
    /// Takes in every element of `other` with its tags.
    fn absorb(&mut self, other: &Self)
        requires
            old(self).wf(),
            other.wf(),
            faithful::<T>(),
        ensures
            final(self).wf(),
            final(self)@ == union_tags(old(self)@, other@),
            final(self).removed_tags() == old(self).removed_tags(),
    {
        proof {
            other.elements.lemma_key_order();
        }
        let ghost ko = other.elements.key_order();
        let ghost start = self@;
        let n = other.elements.len();
        let mut i: usize = 0;
        proof {
            let empty = other@.restrict(Set::new(|e: T| ko.take(0).contains(e)));
            assert(empty =~= Map::<T, Set<TagView>>::empty());
            assert forall|e: T| #[trigger] union_tags(start, empty).contains_key(e) implies union_tags(start, empty)[e] == start[e] by {
                assert(tags_of(start, e).union(tags_of(empty, e)) =~= start[e]);
            }
            assert(union_tags(start, empty) =~= start);
        }
        while i < n
            invariant
                self.wf(),
                other.wf(),
                faithful::<T>(),
                ko == other.elements.key_order(),
                n == ko.len(),
                ko.no_duplicates(),
                forall|e: T| #[trigger] other.elements.map().contains_key(e) <==> ko.contains(e),
                i <= n,
                self@ == union_tags(start, other@.restrict(Set::new(|e: T| ko.take(i as int).contains(e)))),
                self.removed@ == old(self).removed@,
            decreases n - i,
        {
            let (key, tags) = other.elements.entry_at(i);
            let ghost e = key@;
            let ghost before = self@;
            match self.elements.get_mut(key) {
                Some(mine) => {
                    mine.extend(tags);
                    proof {
                        assert(self@ =~= before.insert(e, tags_of(before, e).union(tags@)));
                    }
                },
                None => {
                    let k = key.key_clone();
                    let t = tags.clone();
                    let _ = self.elements.insert(k, t);
                    proof {
                        assert(tags_of(before, e).union(tags@) =~= tags@);
                        assert(self@ =~= before.insert(e, tags_of(before, e).union(tags@)));
                    }
                },
            }
            proof {
                assert forall|x: T| #[trigger] ko.take(i + 1).contains(x) <==> (ko.take(i as int).contains(x) || x == e) by {
                    if ko.take(i + 1).contains(x) {
                        let t = ko.take(i + 1);
                        let y = choose|y: int| 0 <= y < t.len() && #[trigger] t[y] == x;
                        if y < i {
                            assert(ko.take(i as int)[y] == x);
                        }
                    }
                    if ko.take(i as int).contains(x) {
                        let t = ko.take(i as int);
                        let y = choose|y: int| 0 <= y < t.len() && #[trigger] t[y] == x;
                        assert(ko.take(i + 1)[y] == x);
                    }
                    if x == e {
                        assert(ko.take(i + 1)[i as int] == x);
                    }
                }
                assert(!ko.take(i as int).contains(e)) by {
                    if ko.take(i as int).contains(e) {
                        let t = ko.take(i as int);
                        let x = choose|x: int| 0 <= x < t.len() && #[trigger] t[x] == e;
                        assert(ko[x] == ko[i as int]);
                    }
                }
                let r1 = other@.restrict(Set::new(|x: T| ko.take(i as int).contains(x)));
                let r2 = other@.restrict(Set::new(|x: T| ko.take(i + 1).contains(x)));
                assert(r2 =~= r1.insert(e, other@[e]));
                assert(other@[e] == tags@);
                assert(before == union_tags(start, r1));
                assert(self@ == before.insert(e, tags_of(before, e).union(tags@)));
                assert forall|x: T| #[trigger] self@.contains_key(x) <==> union_tags(start, r2).contains_key(x) by {
                    if x != e {
                        assert(r2.contains_key(x) == r1.contains_key(x));
                    }
                }
                assert forall|x: T| #[trigger] union_tags(start, r2).contains_key(x) implies union_tags(start, r2)[x] == self@[x] by {
                    if x != e {
                        assert(tags_of(r2, x) == tags_of(r1, x));
                        assert(self@[x] == before[x]);
                    } else {
                        assert(tags_of(r1, e) =~= Set::<TagView>::empty());
                        assert(tags_of(start, e).union(tags_of(r2, e)) =~= tags_of(union_tags(start, r1), e).union(tags@));
                    }
                }
                assert(self@ =~= union_tags(start, r2));
            }
            i = i + 1;
        }
        proof {
            assert(ko.take(n as int) =~= ko);
            assert(other@.restrict(Set::new(|x: T| ko.take(n as int).contains(x))) =~= other@);
        }
    }

    /// Drops the removed tags from every element, and the elements left
    /// with none.
    fn purge(&mut self)
        requires
            old(self).wf(),
            faithful::<T>(),
        ensures
            final(self).wf(),
            final(self)@ == purged(old(self)@, old(self).removed_tags()),
            final(self).removed_tags() == old(self).removed_tags(),
    {
        proof {
            self.elements.lemma_key_order();
        }
        let ghost ko = self.elements.key_order();
        let ghost start = self@;
        let ghost r = self.removed@;
        let n = self.elements.len();
        let mut kept: KeyedVec<Elem<T>, TagSet> = KeyedVec::new();
        let mut i: usize = 0;
        proof {
            assert(kept.map().map_values(|t: TagSet| t@) =~= purged(start.restrict(ko.take(0).to_set()), r));
        }
        while i < n
            invariant
                self.wf(),
                *self == *old(self),
                faithful::<T>(),
                start == self@,
                r == self.removed@,
                ko == self.elements.key_order(),
                n == ko.len(),
                ko.no_duplicates(),
                ko.to_set() == self.elements.map().dom(),
                i <= n,
                kept.wf(),
                forall|e: T| #[trigger] kept.map().contains_key(e) ==> kept.map()[e].wf(),
                kept.map().map_values(|t: TagSet| t@) == purged(start.restrict(ko.take(i as int).to_set()), r),
            decreases n - i,
        {
            let (key, tags) = self.elements.entry_at(i);
            let ghost e = key@;
            let mut t = tags.clone();
            t.subtract(&self.removed);
            proof {
                t.lemma_finite();
                if t@.len() == 0 {
                    t@.lemma_len0_is_empty();
                }
                if t@ == Set::<TagView>::empty() {
                    assert(t@.len() == 0);
                }
                lemma_push_to_set(ko.take(i as int), ko[i as int]);
                assert(ko.take(i + 1) =~= ko.take(i as int).push(ko[i as int]));
                assert(!ko.take(i as int).to_set().contains(e)) by {
                    if ko.take(i as int).contains(e) {
                        let x = choose|x: int| 0 <= x < i && ko.take(i as int)[x] == e;
                        assert(ko[x] == ko[i as int]);
                    }
                }
            }
            let ghost before = kept.map().map_values(|t: TagSet| t@);
            if t.len() > 0 {
                let k = key.key_clone();
                let _ = kept.insert(k, t);
                proof {
                    assert(kept.map().map_values(|t: TagSet| t@) =~= before.insert(e, start[e].difference(r)));
                }
            }
            proof {
                let p1 = purged(start.restrict(ko.take(i as int).to_set()), r);
                let p2 = purged(start.restrict(ko.take(i + 1).to_set()), r);
                assert(start[e] == tags@);
                assert(kept.map().map_values(|t: TagSet| t@) =~= p2);
            }
            i = i + 1;
        }
        proof {
            assert(ko.take(n as int) =~= ko);
            assert(start.restrict(ko.to_set()) =~= start);
        }
        self.elements = kept;
        proof {
            assert(self@ =~= purged(start, r));
        }
    }
}

impl<T: Clone + PartialEq> Default for ORSet<T> {
    fn default() -> (s: Self)
        ensures
            s.wf(),
            s@ == Map::<T, Set<TagView>>::empty(),
    {
        Self::new()
    }
}

proof fn lemma_purged_tags<T>(m: Map<T, Set<TagView>>, r: Set<TagView>, e: T)
    ensures
        tags_of(purged(m, r), e) == tags_of(m, e).difference(r),
{
    if !m.contains_key(e) {
        assert(Set::<TagView>::empty().difference(r) =~= Set::<TagView>::empty());
    }
}

proof fn lemma_union_of<T>(a: Map<T, Set<TagView>>, b: Map<T, Set<TagView>>, e: T)
    ensures
        tags_of(union_tags(a, b), e) == tags_of(a, e).union(tags_of(b, e)),
{
    if !a.contains_key(e) && !b.contains_key(e) {
        assert(tags_of(a, e).union(tags_of(b, e)) =~= Set::<TagView>::empty());
    }
}

/// Two states are the same where every element has the same tags in both
/// and those of each element present are not empty.
proof fn lemma_same_by_tags<T>(x: Map<T, Set<TagView>>, y: Map<T, Set<TagView>>)
    requires
        forall|e: T| #[trigger] tags_of(x, e) == tags_of(y, e),
        forall|e: T| #[trigger] x.contains_key(e) ==> x[e] != Set::<TagView>::empty(),
        forall|e: T| #[trigger] y.contains_key(e) ==> y[e] != Set::<TagView>::empty(),
    ensures
        x == y,
{
    assert forall|e: T| #[trigger] x.contains_key(e) == y.contains_key(e) by {
        assert(tags_of(x, e) == tags_of(y, e));
    }
    assert forall|e: T| #[trigger] x.contains_key(e) implies x[e] == y[e] by {
        assert(tags_of(x, e) == tags_of(y, e));
    }
    assert(x =~= y);
}

/// Merging OR-Set states is commutative.
pub proof fn lemma_or_merge_commutative<T>(a: Map<T, Set<TagView>>, ra: Set<TagView>, b: Map<T, Set<TagView>>, rb: Set<TagView>)
    ensures
        or_merge(a, ra, b, rb) == or_merge(b, rb, a, ra),
{
    let x = or_merge(a, ra, b, rb);
    let y = or_merge(b, rb, a, ra);
    assert(ra.union(rb) =~= rb.union(ra));
    assert forall|e: T| #[trigger] tags_of(x, e) == tags_of(y, e) by {
        lemma_purged_tags(union_tags(a, b), ra.union(rb), e);
        lemma_purged_tags(union_tags(b, a), rb.union(ra), e);
        lemma_union_of(a, b, e);
        lemma_union_of(b, a, e);
        assert(tags_of(a, e).union(tags_of(b, e)) =~= tags_of(b, e).union(tags_of(a, e)));
    }
    lemma_same_by_tags(x, y);
}

/// Merging OR-Set states is associative.
pub proof fn lemma_or_merge_associative<T>(
    a: Map<T, Set<TagView>>,
    ra: Set<TagView>,
    b: Map<T, Set<TagView>>,
    rb: Set<TagView>,
    c: Map<T, Set<TagView>>,
    rc: Set<TagView>,
)
    ensures
        or_merge(or_merge(a, ra, b, rb), ra.union(rb), c, rc) == or_merge(a, ra, or_merge(b, rb, c, rc), rb.union(rc)),
{
    let ab = or_merge(a, ra, b, rb);
    let bc = or_merge(b, rb, c, rc);
    let x = or_merge(ab, ra.union(rb), c, rc);
    let y = or_merge(a, ra, bc, rb.union(rc));
    let r = ra.union(rb).union(rc);
    assert(ra.union(rb.union(rc)) =~= r);
    assert forall|e: T| #[trigger] tags_of(x, e) == tags_of(y, e) by {
        lemma_purged_tags(union_tags(a, b), ra.union(rb), e);
        lemma_purged_tags(union_tags(b, c), rb.union(rc), e);
        lemma_purged_tags(union_tags(ab, c), r, e);
        lemma_purged_tags(union_tags(a, bc), r, e);
        lemma_union_of(a, b, e);
        lemma_union_of(b, c, e);
        lemma_union_of(ab, c, e);
        lemma_union_of(a, bc, e);
        assert(tags_of(x, e) =~= tags_of(a, e).union(tags_of(b, e)).union(tags_of(c, e)).difference(r));
        assert(tags_of(y, e) =~= tags_of(a, e).union(tags_of(b, e)).union(tags_of(c, e)).difference(r));
    }
    lemma_same_by_tags(x, y);
}

/// Merging a state with itself changes nothing, where every element has a
/// tag and none of its tags is among those removed.
pub proof fn lemma_or_merge_idempotent<T>(a: Map<T, Set<TagView>>, ra: Set<TagView>)
    requires
        forall|e: T| #[trigger] a.contains_key(e) ==> a[e] != Set::<TagView>::empty() && a[e].disjoint(ra),
    ensures
        or_merge(a, ra, a, ra) == a,
{
    let x = or_merge(a, ra, a, ra);
    assert(ra.union(ra) =~= ra);
    assert forall|e: T| #[trigger] tags_of(x, e) == tags_of(a, e) by {
        lemma_purged_tags(union_tags(a, a), ra, e);
        lemma_union_of(a, a, e);
        if a.contains_key(e) {
            assert(a[e].union(a[e]).difference(ra) =~= a[e]);
        } else {
            assert(Set::<TagView>::empty().union(Set::<TagView>::empty()).difference(ra) =~= Set::<TagView>::empty());
        }
    }
    lemma_same_by_tags(x, a);
}

/// A remove sticks: after `x` is removed from a state (its observed tags
/// recorded as removed), merging in a replica that holds no tag of `x`
/// beyond those observed leaves `x` out.
pub proof fn lemma_remove_sticks<T>(
    s: Map<T, Set<TagView>>,
    rs: Set<TagView>,
    x: T,
    other: Map<T, Set<TagView>>,
    ro: Set<TagView>,
)
    requires
        tags_of(other, x).subset_of(tags_of(s, x)),
    ensures
        !or_merge(s.remove(x), rs.union(tags_of(s, x)), other, ro).contains_key(x),
{
    let r = rs.union(tags_of(s, x)).union(ro);
    lemma_union_of(s.remove(x), other, x);
    assert(tags_of(s.remove(x), x) =~= Set::<TagView>::empty());
    assert(tags_of(s.remove(x), x).union(tags_of(other, x)).difference(r) =~= Set::<TagView>::empty());
}

/// A merge keeps every tag that neither side has removed: an element holding
/// such a tag on either side is present afterwards, with that tag.
pub proof fn lemma_merge_keeps_live_tags<T>(
    a: Map<T, Set<TagView>>,
    ra: Set<TagView>,
    b: Map<T, Set<TagView>>,
    rb: Set<TagView>,
    x: T,
    t: TagView,
)
    requires
        tags_of(a, x).contains(t) || tags_of(b, x).contains(t),
        !ra.contains(t),
        !rb.contains(t),
    ensures
        or_merge(a, ra, b, rb).contains_key(x),
        or_merge(a, ra, b, rb)[x].contains(t),
{
    lemma_union_of(a, b, x);
    let u = union_tags(a, b);
    assert(u.contains_key(x));
    assert(u[x].difference(ra.union(rb)).contains(t));
}

} // verus!
