//! MV-Register (Multi-Value Register) CRDT implementation.

use vstd::prelude::*;
use vstd::pervasive::strictly_cloned;
use crate::keyed::faithful;
use crate::rhc::crdt::{ActorId, CRDT};
use crate::rhc::crdt::or_set::{TagSet, TagView, unref};
use crate::rhc::hlc::HLCTimestamp;

verus! {

/// The value of a version: its tag (actor, timestamp) and the tags it supersedes.
pub type VersionView = (TagView, Set<TagView>);

/// The value of a versioned value.
pub type VersionedView<T> = (T, VersionView);

/// Whether some other value of `s` supersedes `v`.
pub open spec fn superseded_in<T>(s: Set<VersionedView<T>>, v: VersionedView<T>) -> bool {
    exists|w: VersionedView<T>| #[trigger] s.contains(w) && w != v && w.1.1.contains(v.1.0)
}

/// No value of `s` supersedes another.
pub open spec fn antichain<T>(s: Set<VersionedView<T>>) -> bool {
    forall|v: VersionedView<T>| #[trigger] s.contains(v) ==> !superseded_in(s, v)
}

/// Merge of two register states: every value of either that no other value
/// of either supersedes.
pub open spec fn mv_join<T>(a: Set<VersionedView<T>>, b: Set<VersionedView<T>>) -> Set<VersionedView<T>> {
    Set::new(|v: VersionedView<T>| (a.contains(v) || b.contains(v)) && !superseded_in(a.union(b), v))
}

/// The tag of a versioned value.
pub open spec fn tag_of<T>(v: VersionedView<T>) -> TagView {
    v.1.0
}

#[derive(Debug)]
pub struct Version {
    pub actor: ActorId,
    pub timestamp: HLCTimestamp,
    /// Set of versions this supersedes
    pub supersedes: TagSet,
}

impl View for Version {
    type V = VersionView;

    open spec fn view(&self) -> VersionView {
        ((self.actor@, self.timestamp), self.supersedes@)
    }
}

impl Clone for Version {
    fn clone(&self) -> (v: Self)
        ensures
            v@ == self@,
            self.supersedes.wf() ==> v.supersedes.wf(),
    {
        Version { actor: self.actor.clone(), timestamp: self.timestamp, supersedes: self.supersedes.clone() }
    }
}

#[derive(Debug)]
pub struct VersionedValue<T> {
    pub value: T,
    pub version: Version,
}

impl<T> View for VersionedValue<T> {
    type V = VersionedView<T>;

    open spec fn view(&self) -> VersionedView<T> {
        (self.value, self.version@)
    }
}

impl<T: Clone> Clone for VersionedValue<T> {
    fn clone(&self) -> (v: Self)
        ensures
            strictly_cloned(self.value, v.value),
            v.version@ == self.version@,
            self.version.supersedes.wf() ==> v.version.supersedes.wf(),
    {
        VersionedValue { value: self.value.clone(), version: self.version.clone() }
    }
}

impl<T: Clone + PartialEq> VersionedValue<T> {
    /// Whether two versioned values are equal.
    pub fn same_as(&self, other: &Self) -> (r: bool)
        requires
            faithful::<T>(),
            self.version.supersedes.wf(),
            other.version.supersedes.wf(),
        ensures
            r == (self@ == other@),
    {
        proof {
            reveal(vstd::laws_eq::obeys_concrete_eq);
        }
        self.value == other.value && self.version.actor.0 == other.version.actor.0
            && self.version.timestamp == other.version.timestamp
            && self.version.supersedes.same_as(&other.version.supersedes)
    }
}

/// The values of a sequence of versioned values.
pub open spec fn views<T>(s: Seq<VersionedValue<T>>) -> Seq<VersionedView<T>> {
    Seq::new(s.len(), |i: int| s[i]@)
}

/// Every supersedes set of the sequence is well formed.
pub open spec fn all_wf<T>(s: Seq<VersionedValue<T>>) -> bool {
    forall|i: int| 0 <= i < s.len() ==> (#[trigger] s[i]).version.supersedes.wf()
}

/// Multi-Value Register - stores multiple concurrent values.
/// Returns all concurrent values that haven't been superseded.
#[derive(Debug)]
pub struct MVRegister<T: Clone + PartialEq> {
    /// Set of concurrent values with their versions
    values: Vec<VersionedValue<T>>,
}

impl<T: Clone + PartialEq> View for MVRegister<T> {
    type V = Set<VersionedView<T>>;

    open spec fn view(&self) -> Set<VersionedView<T>> {
        self.order().to_set()
    }
}

impl<T: Clone + PartialEq> MVRegister<T> {
    /// The values in iteration order.
    pub closed spec fn order(&self) -> Seq<VersionedView<T>> {
        views(self.values@)
    }

    /// The internal consistency of the register: no value twice, no value
    /// superseded by another.
    pub closed spec fn wf(&self) -> bool {
        &&& all_wf(self.values@)
        &&& self.order().no_duplicates()
        &&& antichain(self@)
    }

    pub fn new() -> (r: Self)
        ensures
            r.wf(),
            r@ == Set::<VersionedView<T>>::empty(),
    {
        let r = Self { values: Vec::new() };
        proof {
            assert(r@ =~= Set::<VersionedView<T>>::empty());
        }
        r
    }

    /// Set a value, superseding all current values.
    pub fn set(&mut self, value: T, actor: ActorId, timestamp: HLCTimestamp)
        requires
            old(self).wf(),
        ensures
            final(self).wf(),
            final(self)@ == set![(value, ((actor@, timestamp), old(self)@.map(|v: VersionedView<T>| tag_of(v))))],
    {
        let ghost ord = self.order();
        let mut supersedes = TagSet::new();
        let mut i: usize = 0;
        while i < self.values.len()
            invariant
                supersedes.wf(),
                ord == self.order(),
                ord.len() == self.values.len(),
                i <= self.values.len(),
                supersedes@ == Set::new(|t: TagView| exists|j: int| 0 <= j < i && #[trigger] tag_of(ord[j]) == t),
            decreases self.values.len() - i,
        {
            let tag = (self.values[i].version.actor.clone(), self.values[i].version.timestamp);
            let ghost before = supersedes@;
            supersedes.insert(tag);
            proof {
                assert(tag_of(ord[i as int]) == tag@);
                assert forall|t: TagView| #[trigger] supersedes@.contains(t) <==> exists|j: int| 0 <= j < i + 1 && #[trigger] tag_of(ord[j]) == t by {
                    if t == tag@ {
                        assert(tag_of(ord[i as int]) == t);
                    }
                    if exists|j: int| 0 <= j < i + 1 && #[trigger] tag_of(ord[j]) == t {
                        let j = choose|j: int| 0 <= j < i + 1 && #[trigger] tag_of(ord[j]) == t;
                        if j < i {
                            assert(before.contains(t));
                        }
                    }
                }
                assert(supersedes@ =~= Set::new(|t: TagView| exists|j: int| 0 <= j < i + 1 && #[trigger] tag_of(ord[j]) == t));
            }
            i = i + 1;
        }
        let ghost old_view = self@;
        proof {
            assert forall|t: TagView| #[trigger] supersedes@.contains(t) <==> old_view.map(|v: VersionedView<T>| tag_of(v)).contains(t) by {
                if supersedes@.contains(t) {
                    let j = choose|j: int| 0 <= j < ord.len() && #[trigger] tag_of(ord[j]) == t;
                    assert(old_view.contains(ord[j]));
                }
                if old_view.map(|v: VersionedView<T>| tag_of(v)).contains(t) {
                    let v = choose|v: VersionedView<T>| old_view.contains(v) && tag_of(v) == t;
                    let j = choose|j: int| 0 <= j < ord.len() && ord[j] == v;
                    assert(tag_of(ord[j]) == t);
                }
            }
            assert(supersedes@ =~= old_view.map(|v: VersionedView<T>| tag_of(v)));
        }
        self.values.clear();
        let vv = VersionedValue { value, version: Version { actor, timestamp, supersedes } };
        let ghost vv_view = vv@;
        self.values.push(vv);
        proof {
            assert(self.values@ =~= seq![self.values@[0]]);
            assert(self.order() =~= seq![vv_view]);
            assert forall|x: VersionedView<T>| #[trigger] self@.contains(x) <==> x == vv_view by {
                if x == vv_view {
                    assert(self.order()[0] == x);
                }
            }
            assert(self@ =~= set![vv_view]);
            assert forall|v: VersionedView<T>| #[trigger] self@.contains(v) implies !superseded_in(self@, v) by {
                if superseded_in(self@, v) {
                    let w = choose|w: VersionedView<T>| #[trigger] self@.contains(w) && w != v && w.1.1.contains(v.1.0);
                }
            }
        }
    }

    /// Get all concurrent values, in iteration order
    pub fn get(&self) -> (r: Vec<&T>)
        requires
            self.wf(),
        ensures
            unref(r@) == self.order().map_values(|v: VersionedView<T>| v.0),
            self.order().to_set() == self@,
            self.order().no_duplicates(),
    {
        let mut r: Vec<&T> = Vec::new();
        let mut i: usize = 0;
        while i < self.values.len()
            invariant
                i <= self.values.len(),
                r@.len() == i,
                forall|j: int| 0 <= j < i ==> *(#[trigger] r@[j]) == self.values@[j].value,
            decreases self.values.len() - i,
        {
            r.push(&self.values[i].value);
            i = i + 1;
        }
        proof {
            assert(unref(r@) =~= self.order().map_values(|v: VersionedView<T>| v.0));
        }
        r
    }

    /// Get all values with their versions, in iteration order
    pub fn get_versioned(&self) -> (r: Vec<&VersionedValue<T>>)
        requires
            self.wf(),
        ensures
            views(unref(r@)) == self.order(),
            self.order().to_set() == self@,
            self.order().no_duplicates(),
    {
        let mut r: Vec<&VersionedValue<T>> = Vec::new();
        let mut i: usize = 0;
        while i < self.values.len()
            invariant
                i <= self.values.len(),
                r@.len() == i,
                forall|j: int| 0 <= j < i ==> *(#[trigger] r@[j]) == self.values@[j],
            decreases self.values.len() - i,
        {
            r.push(&self.values[i]);
            i = i + 1;
        }
        proof {
            assert(views(unref(r@)) =~= self.order());
        }
        r
    }

    /// Check if register has any values
    pub fn is_empty(&self) -> (r: bool)
        ensures
            r == (self@ == Set::<VersionedView<T>>::empty()),
    {
        proof {
            if self.values.len() > 0 {
                assert(self@.contains(self.order()[0]));
            } else {
                assert(self@ =~= Set::<VersionedView<T>>::empty());
            }
        }
        self.values.len() == 0
    }
}

/// Pushing a new element keeps a sequence free of duplicates.
proof fn lemma_push_distinct<A>(s: Seq<A>, x: A)
    requires
        s.no_duplicates(),
        !s.contains(x),
    ensures
        s.push(x).no_duplicates(),
{
    assert forall|p: int, q: int| 0 <= p < s.len() + 1 && 0 <= q < s.len() + 1 && p != q
        implies s.push(x)[p] != s.push(x)[q] by {
        if q == s.len() {
            assert(s[p] == s.push(x)[p]);
        } else if p == s.len() {
            assert(s[q] == s.push(x)[q]);
        }
    }
}

/// Whether `v` occurs among `s`, by value.
fn contains_value<T: Clone + PartialEq>(s: &Vec<VersionedValue<T>>, v: &VersionedValue<T>) -> (r: bool)
    requires
        faithful::<T>(),
        all_wf(s@),
        v.version.supersedes.wf(),
    ensures
        r == views(s@).contains(v@),
{
    let mut i: usize = 0;
    while i < s.len()
        invariant
            faithful::<T>(),
            all_wf(s@),
            v.version.supersedes.wf(),
            i <= s.len(),
            forall|j: int| 0 <= j < i ==> views(s@)[j] != v@,
        decreases s.len() - i,
    {
        if s[i].same_as(v) {
            proof {
                assert(views(s@)[i as int] == v@);
            }
            return true;
        }
        i = i + 1;
    }
    false
}

/// Whether another value of `s` supersedes the one at position `i`.
fn superseded_at<T>(s: &Vec<VersionedValue<T>>, i: usize) -> (r: bool)
    requires
        all_wf(s@),
        views(s@).no_duplicates(),
        i < s.len(),
    ensures
        r == superseded_in(views(s@).to_set(), views(s@)[i as int]),
{
    let ghost u = views(s@);
    let tag = (s[i].version.actor.clone(), s[i].version.timestamp);
    proof {
        assert(tag@ == u[i as int].1.0);
    }
    let mut k: usize = 0;
    while k < s.len()
        invariant
            all_wf(s@),
            u == views(s@),
            u.no_duplicates(),
            i < s.len(),
            tag@ == u[i as int].1.0,
            k <= s.len(),
            forall|j: int| 0 <= j < k && j != i ==> !(#[trigger] u[j]).1.1.contains(tag@),
        decreases s.len() - k,
    {
        if k != i && s[k].version.supersedes.contains(&tag) {
            proof {
                assert(u[k as int].1.1.contains(tag@));
                assert(u.to_set().contains(u[k as int]));
            }
            return true;
        }
        proof {
            if k != i {
                assert(!u[k as int].1.1.contains(tag@));
            }
        }
        k = k + 1;
    }
    proof {
        if superseded_in(u.to_set(), u[i as int]) {
            let w = choose|w: VersionedView<T>| #[trigger] u.to_set().contains(w) && w != u[i as int] && w.1.1.contains(u[i as int].1.0);
            let j = choose|j: int| 0 <= j < u.len() && u[j] == w;
            assert(!u[j].1.1.contains(tag@));
        }
    }
    false
}

impl<T: Clone + PartialEq> Clone for MVRegister<T> {
    fn clone(&self) -> (r: Self)
        ensures
            faithful::<T>() && self.wf() ==> r.wf() && r.order() == self.order() && r@ == self@,
    {
        let mut values: Vec<VersionedValue<T>> = Vec::new();
        let mut i: usize = 0;
        while i < self.values.len()
            invariant
                i <= self.values.len(),
                values@.len() == i,
                forall|j: int| 0 <= j < i ==> strictly_cloned(self.values@[j].value, (#[trigger] values@[j]).value)
                    && values@[j].version@ == self.values@[j].version@
                    && (self.values@[j].version.supersedes.wf() ==> values@[j].version.supersedes.wf()),
            decreases self.values.len() - i,
        {
            values.push(self.values[i].clone());
            i = i + 1;
        }
        let r = MVRegister { values };
        proof {
            if faithful::<T>() && self.wf() {
                assert forall|j: int| 0 <= j < i implies (#[trigger] r.values@[j])@ == self.values@[j]@ by {
                    assert(strictly_cloned(self.values@[j].value, r.values@[j].value));
                }
                assert(r.order() =~= self.order());
            }
        }
        r
    }
}

impl<T: Clone + PartialEq> CRDT for MVRegister<T> {
    open spec fn crdt_wf(&self) -> bool {
        self.wf() && faithful::<T>()
    }

    /// Keeps every value of either register that no other value of either supersedes.
    fn merge(&mut self, other: &Self)
        ensures
            final(self)@ == mv_join(old(self)@, other@),
    {
        let ghost a = self@;
        let ghost b = other@;
        let mut all: Vec<VersionedValue<T>> = Vec::new();
        let mut i: usize = 0;
        while i < self.values.len()
            invariant
                faithful::<T>(),
                all_wf(self.values@),
                i <= self.values.len(),
                all@.len() == i,
                all_wf(all@),
                forall|j: int| 0 <= j < i ==> (#[trigger] all@[j])@ == self.values@[j]@,
            decreases self.values.len() - i,
        {
            let v = self.values[i].clone();
            proof {
                assert(strictly_cloned(self.values@[i as int].value, v.value));
            }
            all.push(v);
            i = i + 1;
        }
        proof {
            assert(views(all@) =~= self.order());
        }
        let mut j: usize = 0;
        while j < other.values.len()
            invariant
                faithful::<T>(),
                other.wf(),
                j <= other.values.len(),
                all_wf(all@),
                views(all@).no_duplicates(),
                forall|x: VersionedView<T>| #[trigger] views(all@).contains(x)
                    <==> (a.contains(x) || exists|k: int| 0 <= k < j && other.order()[k] == x),
            decreases other.values.len() - j,
        {
            proof {
                assert(other.values@[j as int].version.supersedes.wf());
            }
            if !contains_value(&all, &other.values[j]) {
                let v = other.values[j].clone();
                proof {
                    assert(strictly_cloned(other.values@[j as int].value, v.value));
                    assert(v@ == other.order()[j as int]);
                }
                let ghost before = views(all@);
                all.push(v);
                proof {
                    assert(views(all@) =~= before.push(v@));
                    lemma_push_distinct(before, v@);
                    assert forall|x: VersionedView<T>| #[trigger] views(all@).contains(x)
                        <==> (a.contains(x) || exists|k: int| 0 <= k < j + 1 && other.order()[k] == x) by {
                        if views(all@).contains(x) {
                            let p = choose|p: int| 0 <= p < views(all@).len() && views(all@)[p] == x;
                            if p < before.len() {
                                assert(before[p] == x);
                            }
                        }
                        if before.contains(x) {
                            let p = choose|p: int| 0 <= p < before.len() && before[p] == x;
                            assert(views(all@)[p] == x);
                        }
                        if x == v@ {
                            assert(views(all@)[before.len() as int] == x);
                        }
                    }
                }
            } else {
                proof {
                    assert forall|x: VersionedView<T>| #[trigger] views(all@).contains(x)
                        <==> (a.contains(x) || exists|k: int| 0 <= k < j + 1 && other.order()[k] == x) by {
                        if exists|k: int| 0 <= k < j + 1 && other.order()[k] == x {
                            let k = choose|k: int| 0 <= k < j + 1 && other.order()[k] == x;
                            if k == j {
                                assert(views(all@).contains(other.values@[j as int]@));
                            }
                        }
                    }
                }
            }
            j = j + 1;
        }
        let ghost u = views(all@);
        proof {
            assert forall|x: VersionedView<T>| #[trigger] u.to_set().contains(x) <==> a.union(b).contains(x) by {
                if b.contains(x) {
                    let k = choose|k: int| 0 <= k < other.order().len() && other.order()[k] == x;
                    assert(other.order()[k] == x);
                }
            }
            assert(u.to_set() =~= a.union(b));
        }
        let mut result: Vec<VersionedValue<T>> = Vec::new();
        let mut i: usize = 0;
        while i < all.len()
            invariant
                faithful::<T>(),
                u == views(all@),
                u.no_duplicates(),
                u.to_set() == a.union(b),
                all_wf(all@),
                i <= all.len(),
                all_wf(result@),
                views(result@).no_duplicates(),
                forall|x: VersionedView<T>| #[trigger] views(result@).contains(x)
                    ==> exists|k: int| 0 <= k < i && u[k] == x,
                forall|x: VersionedView<T>| #[trigger] views(result@).contains(x)
                    <==> (exists|k: int| 0 <= k < i && u[k] == x) && !superseded_in(a.union(b), x),
            decreases all.len() - i,
        {
            if !superseded_at(&all, i) {
                let v = all[i].clone();
                proof {
                    assert(strictly_cloned(all@[i as int].value, v.value));
                    assert(v@ == u[i as int]);
                }
                let ghost before = views(result@);
                proof {
                    if before.contains(v@) {
                        let k = choose|k: int| 0 <= k < i && u[k] == v@;
                        assert(u[k] == u[i as int]);
                    }
                }
                result.push(v);
                proof {
                    assert(views(result@) =~= before.push(v@));
                    lemma_push_distinct(before, v@);
                    assert forall|x: VersionedView<T>| #[trigger] views(result@).contains(x)
                        implies exists|k: int| 0 <= k < i + 1 && u[k] == x by {
                        let p = choose|p: int| 0 <= p < views(result@).len() && views(result@)[p] == x;
                        if p < before.len() {
                            assert(before[p] == x);
                            assert(before.contains(x));
                        }
                    }
                    assert forall|x: VersionedView<T>| #[trigger] views(result@).contains(x)
                        <==> (exists|k: int| 0 <= k < i + 1 && u[k] == x) && !superseded_in(a.union(b), x) by {
                        if views(result@).contains(x) {
                            let p = choose|p: int| 0 <= p < views(result@).len() && views(result@)[p] == x;
                            if p < before.len() {
                                assert(before[p] == x);
                                assert(before.contains(x));
                            }
                        }
                        if exists|k: int| 0 <= k < i + 1 && u[k] == x {
                            let k = choose|k: int| 0 <= k < i + 1 && u[k] == x;
                            if k < i {
                                assert(exists|k: int| 0 <= k < i && u[k] == x);
                            }
                            if before.contains(x) {
                                let p = choose|p: int| 0 <= p < before.len() && before[p] == x;
                                assert(views(result@)[p] == x);
                            }
                            if x == v@ {
                                assert(views(result@)[before.len() as int] == x);
                            }
                        }
                    }
                }
            } else {
                proof {
                    assert forall|x: VersionedView<T>| #[trigger] views(result@).contains(x)
                        implies exists|k: int| 0 <= k < i + 1 && u[k] == x by {
                        let k = choose|k: int| 0 <= k < i && u[k] == x;
                        assert(0 <= k < i + 1 && u[k] == x);
                    }
                    assert forall|x: VersionedView<T>| #[trigger] views(result@).contains(x)
                        <==> (exists|k: int| 0 <= k < i + 1 && u[k] == x) && !superseded_in(a.union(b), x) by {
                        if exists|k: int| 0 <= k < i + 1 && u[k] == x {
                            let k = choose|k: int| 0 <= k < i + 1 && u[k] == x;
                            if k < i {
                                assert(exists|k: int| 0 <= k < i && u[k] == x);
                            }
                        }
                    }
                }
            }
            i = i + 1;
        }
        self.values = result;
        proof {
            assert forall|x: VersionedView<T>| #[trigger] self@.contains(x) <==> mv_join(a, b).contains(x) by {
                if mv_join(a, b).contains(x) {
                    assert(u.to_set().contains(x));
                    let k = choose|k: int| 0 <= k < u.len() && u[k] == x;
                    assert(exists|k: int| 0 <= k < u.len() && u[k] == x);
                }
                if self@.contains(x) {
                    let k = choose|k: int| 0 <= k < u.len() && u[k] == x;
                    assert(u.to_set().contains(x));
                }
            }
            assert(self@ =~= mv_join(a, b));
            assert forall|v: VersionedView<T>| #[trigger] self@.contains(v) implies !superseded_in(self@, v) by {
                if superseded_in(self@, v) {
                    let w = choose|w: VersionedView<T>| #[trigger] self@.contains(w) && w != v && w.1.1.contains(v.1.0);
                    assert(a.union(b).contains(w));
                }
            }
        }
    }

    /// MV-Register doesn't have a single happens-before relationship.
    fn happens_before(&self, _other: &Self) -> (r: bool)
        ensures
            !r,
    {
        false
    }
}

impl<T: Clone + PartialEq> Default for MVRegister<T> {
    fn default() -> (r: Self)
        ensures
            r.wf(),
            r@ == Set::<VersionedView<T>>::empty(),
    {
        Self::new()
    }
}

/// Merging register states is commutative.
pub proof fn lemma_mv_join_commutative<T>(a: Set<VersionedView<T>>, b: Set<VersionedView<T>>)
    ensures
        mv_join(a, b) == mv_join(b, a),
{
    assert(a.union(b) =~= b.union(a));
    assert(mv_join(a, b) =~= mv_join(b, a));
}

/// Merging a register state with itself changes nothing.
pub proof fn lemma_mv_join_idempotent<T>(a: Set<VersionedView<T>>)
    requires
        antichain(a),
    ensures
        mv_join(a, a) == a,
{
    assert(a.union(a) =~= a);
    assert(mv_join(a, a) =~= a);
}

/// No value of a merged state supersedes another.
pub proof fn lemma_mv_join_antichain<T>(a: Set<VersionedView<T>>, b: Set<VersionedView<T>>)
    ensures
        antichain(mv_join(a, b)),
{
    let m = mv_join(a, b);
    assert forall|v: VersionedView<T>| #[trigger] m.contains(v) implies !superseded_in(m, v) by {
        if superseded_in(m, v) {
            let w = choose|w: VersionedView<T>| #[trigger] m.contains(w) && w != v && w.1.1.contains(v.1.0);
            assert(a.union(b).contains(w));
        }
    }
}

/// A value set after seeing a state supersedes that state: merging the
/// state from before the write into the state after it leaves the latter,
/// unless a value seen already superseded the new write's tag.
pub proof fn lemma_set_supersedes<T>(seen: Set<VersionedView<T>>, value: T, tag: TagView)
    requires
        forall|v: VersionedView<T>| #[trigger] seen.contains(v) ==> !v.1.1.contains(tag),
    ensures
        ({
            let written = set![(value, (tag, seen.map(|v: VersionedView<T>| tag_of(v))))];
            mv_join(seen, written) == written
        }),
{
    let nw: VersionedView<T> = (value, (tag, seen.map(|v: VersionedView<T>| tag_of(v))));
    let written = set![nw];
    assert forall|x: VersionedView<T>| #[trigger] mv_join(seen, written).contains(x) <==> written.contains(x) by {
        if seen.contains(x) && x != nw {
            assert(nw.1.1.contains(tag_of(x)));
            assert(seen.union(written).contains(nw));
            assert(superseded_in(seen.union(written), x));
        }
        if x == nw {
            if superseded_in(seen.union(written), x) {
                let w = choose|w: VersionedView<T>| #[trigger] seen.union(written).contains(w) && w != x && w.1.1.contains(x.1.0);
                assert(seen.contains(w));
            }
        }
    }
    assert(mv_join(seen, written) =~= written);
}

} // verus!
