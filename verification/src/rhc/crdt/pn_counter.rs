//! PN-Counter (Positive-Negative Counter) CRDT implementation.

use vstd::prelude::*;
use crate::keyed::KeyedVec;
use crate::rhc::crdt::{ActorId, CRDT};

verus! {

/// The sum of a sequence of counts.
pub open spec fn seq_sum(s: Seq<u64>) -> int
    decreases s.len(),
{
    if s.len() == 0 {
        0
    } else {
        seq_sum(s.drop_last()) + s.last()
    }
}

proof fn lemma_seq_sum_update(s: Seq<u64>, i: int, v: u64)
    requires
        0 <= i < s.len(),
    ensures
        seq_sum(s.update(i, v)) == seq_sum(s) - s[i] + v,
    decreases s.len(),
{
    if i == s.len() - 1 {
        assert(s.update(i, v).drop_last() =~= s.drop_last());
    } else {
        lemma_seq_sum_update(s.drop_last(), i, v);
        assert(s.update(i, v).drop_last() =~= s.drop_last().update(i, v));
    }
}

proof fn lemma_seq_sum_prefix(s: Seq<u64>, i: int)
    requires
        0 <= i <= s.len(),
    ensures
        0 <= seq_sum(s.take(i)) <= seq_sum(s),
    decreases s.len() - i,
{
    if i < s.len() {
        lemma_seq_sum_prefix(s, i + 1);
        assert(s.take(i + 1).drop_last() =~= s.take(i));
    } else {
        assert(s.take(i) =~= s);
    }
    lemma_seq_sum_nonneg(s.take(i));
}

proof fn lemma_seq_sum_nonneg(s: Seq<u64>)
    ensures
        seq_sum(s) >= 0,
    decreases s.len(),
{
    if s.len() > 0 {
        lemma_seq_sum_nonneg(s.drop_last());
    }
}

/// A count per actor, 0 for an actor not present.
pub open spec fn count_of(m: Map<Seq<char>, u64>, actor: Seq<char>) -> u64 {
    if m.contains_key(actor) {
        m[actor]
    } else {
        0
    }
}

/// The entries of `m` whose keys occur in `keys`.
pub open spec fn restrict_to(m: Map<Seq<char>, u64>, keys: Seq<Seq<char>>) -> Map<Seq<char>, u64> {
    Map::new(|k: Seq<char>| m.contains_key(k) && keys.contains(k), |k: Seq<char>| m[k])
}

/// Pointwise maximum of two per-actor counts.
pub open spec fn max_counts(a: Map<Seq<char>, u64>, b: Map<Seq<char>, u64>) -> Map<Seq<char>, u64> {
    Map::new(
        |k: Seq<char>| a.contains_key(k) || b.contains_key(k),
        |k: Seq<char>| if count_of(a, k) >= count_of(b, k) {
            count_of(a, k)
        } else {
            count_of(b, k)
        },
    )
}

/// PN-Counter - supports concurrent increment/decrement operations.
/// Maintains separate positive and negative counters per actor.
pub struct PNCounter {
    /// Positive counts per actor
    positive: KeyedVec<ActorId, u64>,
    /// Negative counts per actor
    negative: KeyedVec<ActorId, u64>,
}

impl PNCounter {
    /// The positive counts per actor.
    pub closed spec fn pos(&self) -> Map<Seq<char>, u64> {
        self.positive.map()
    }

    /// The negative counts per actor.
    pub closed spec fn neg(&self) -> Map<Seq<char>, u64> {
        self.negative.map()
    }

    /// The sum of the positive counts.
    pub closed spec fn pos_total(&self) -> int {
        seq_sum(self.positive.value_order())
    }

    /// The sum of the negative counts.
    pub closed spec fn neg_total(&self) -> int {
        seq_sum(self.negative.value_order())
    }

    /// The internal consistency of the counter.
    pub closed spec fn wf(&self) -> bool {
        self.positive.wf() && self.negative.wf()
    }

    /// The counter's value (positive minus negative total, as the 64-bit
    /// signed difference of the totals).
    pub open spec fn value_spec(&self) -> int {
        (self.pos_total() as u64 as i64) - (self.neg_total() as u64 as i64)
    }

    pub fn new() -> (c: Self)
        ensures
            c.wf(),
            c.pos() == Map::<Seq<char>, u64>::empty(),
            c.neg() == Map::<Seq<char>, u64>::empty(),
            c.pos_total() == 0,
            c.neg_total() == 0,
    {
        let c = Self { positive: KeyedVec::new(), negative: KeyedVec::new() };
        proof {
            assert(c.positive.value_order() =~= Seq::<u64>::empty());
            assert(c.negative.value_order() =~= Seq::<u64>::empty());
        }
        c
    }

    fn add_to(counts: &mut KeyedVec<ActorId, u64>, actor: ActorId, amount: u64)
        requires
            old(counts).wf(),
            count_of(old(counts).map(), actor@) + amount <= u64::MAX,
        ensures
            final(counts).wf(),
            final(counts).map() == old(counts).map().insert(actor@, (count_of(old(counts).map(), actor@) + amount) as u64),
            seq_sum(final(counts).value_order()) == seq_sum(old(counts).value_order()) + amount,
    {
        let current = match counts.get(&actor) {
            Some(c) => *c,
            None => 0,
        };
        let ghost before = *counts;
        proof {
            before.lemma_key_order();
        }
        let found = counts.find(&actor);
        let _ = counts.insert(actor, current + amount);
        proof {
            let k = actor@;
            match found {
                Some(i) => {
                    assert forall|j: int| 0 <= j < before.key_order().len() && j != i implies before.key_order()[j] != k by {
                        assert(before.key_order().no_duplicates());
                    }
                    assert(counts.value_order() =~= before.value_order().update(i as int, (current + amount) as u64));
                    lemma_seq_sum_update(before.value_order(), i as int, (current + amount) as u64);
                },
                None => {
                    assert(counts.value_order() =~= before.value_order().push((current + amount) as u64));
                    assert(counts.value_order().drop_last() =~= before.value_order());
                },
            }
        }
    }

    /// Increment the counter for `actor` by `amount`
    pub fn increment(&mut self, actor: ActorId, amount: u64)
        requires
            old(self).wf(),
            count_of(old(self).pos(), actor@) + amount <= u64::MAX,
        ensures
            final(self).wf(),
            final(self).pos() == old(self).pos().insert(actor@, (count_of(old(self).pos(), actor@) + amount) as u64),
            final(self).neg() == old(self).neg(),
            final(self).pos_total() == old(self).pos_total() + amount,
            final(self).neg_total() == old(self).neg_total(),
    {
        Self::add_to(&mut self.positive, actor, amount);
    }

    /// Decrement the counter for `actor` by `amount`
    pub fn decrement(&mut self, actor: ActorId, amount: u64)
        requires
            old(self).wf(),
            count_of(old(self).neg(), actor@) + amount <= u64::MAX,
        ensures
            final(self).wf(),
            final(self).neg() == old(self).neg().insert(actor@, (count_of(old(self).neg(), actor@) + amount) as u64),
            final(self).pos() == old(self).pos(),
            final(self).neg_total() == old(self).neg_total() + amount,
            final(self).pos_total() == old(self).pos_total(),
    {
        Self::add_to(&mut self.negative, actor, amount);
    }

    fn total(counts: &KeyedVec<ActorId, u64>) -> (t: u64)
        requires
            counts.wf(),
            seq_sum(counts.value_order()) <= u64::MAX,
        ensures
            t == seq_sum(counts.value_order()),
    {
        let n = counts.len();
        let ghost vo = counts.value_order();
        let mut sum: u64 = 0;
        let mut i: usize = 0;
        while i < n
            invariant
                counts.wf(),
                n == vo.len(),
                vo == counts.value_order(),
                seq_sum(vo) <= u64::MAX,
                i <= n,
                sum == seq_sum(vo.take(i as int)),
            decreases n - i,
        {
            let (_, c) = counts.entry_at(i);
            proof {
                assert(vo.take(i + 1).drop_last() =~= vo.take(i as int));
                lemma_seq_sum_prefix(vo, i + 1);
            }
            sum = sum + *c;
            i = i + 1;
        }
        proof {
            assert(vo.take(n as int) =~= vo);
        }
        sum
    }

    /// Get the current value of the counter: the positive total minus the
    /// negative total.
    pub fn value(&self) -> (v: i64)
        requires
            self.wf(),
            self.pos_total() <= u64::MAX,
            self.neg_total() <= u64::MAX,
            i64::MIN <= self.value_spec() <= i64::MAX,
        ensures
            v == self.value_spec(),
    {
        let pos_sum = Self::total(&self.positive);
        let neg_sum = Self::total(&self.negative);
        (pos_sum as i64) - (neg_sum as i64)
    }

    /// Get the positive count for an actor
    pub fn positive_count(&self, actor: &ActorId) -> (c: u64)
        requires
            self.wf(),
        ensures
            c == count_of(self.pos(), actor@),
    {
        match self.positive.get(actor) {
            Some(c) => *c,
            None => 0,
        }
    }

    /// Get the negative count for an actor
    pub fn negative_count(&self, actor: &ActorId) -> (c: u64)
        requires
            self.wf(),
        ensures
            c == count_of(self.neg(), actor@),
    {
        match self.negative.get(actor) {
            Some(c) => *c,
            None => 0,
        }
    }

    fn merge_counts(mine: &mut KeyedVec<ActorId, u64>, theirs: &KeyedVec<ActorId, u64>)
        requires
            old(mine).wf(),
            theirs.wf(),
        ensures
            final(mine).wf(),
            final(mine).map() == max_counts(old(mine).map(), theirs.map()),
    {
        proof {
            theirs.lemma_key_order();
        }
        let ghost start = mine.map();
        let ghost ko = theirs.key_order();
        let n = theirs.len();
        proof {
            assert(restrict_to(theirs.map(), ko.take(0)) =~= Map::<Seq<char>, u64>::empty());
            assert(max_counts(start, Map::<Seq<char>, u64>::empty()) =~= start);
        }
        let mut i: usize = 0;
        while i < n
            invariant
                mine.wf(),
                theirs.wf(),
                n == ko.len(),
                ko == theirs.key_order(),
                ko.no_duplicates(),
                forall|k: Seq<char>| #[trigger] theirs.map().contains_key(k) <==> ko.contains(k),
                i <= n,
                mine.map() == max_counts(start, restrict_to(theirs.map(), ko.take(i as int))),
            decreases n - i,
        {
            let (actor, count) = theirs.entry_at(i);
            let current = match mine.get(actor) {
                Some(c) => *c,
                None => 0,
            };
            let best = if current >= *count {
                current
            } else {
                *count
            };
            let ghost before = mine.map();
            let _ = mine.insert(actor.clone(), best);
            proof {
                let k = actor@;
                let done = restrict_to(theirs.map(), ko.take(i as int));
                let done2 = restrict_to(theirs.map(), ko.take(i + 1));
                assert(ko.take(i + 1) =~= ko.take(i as int).push(k));
                assert forall|x: Seq<char>| #[trigger] ko.take(i + 1).contains(x) <==> (ko.take(i as int).contains(x) || x == k) by {
                    if ko.take(i + 1).contains(x) {
                        let t = ko.take(i + 1);
                        let y = choose|y: int| 0 <= y < t.len() && #[trigger] t[y] == x;
                        if y < i {
                            assert(ko.take(i as int)[y] == x);
                        }
                    }
                    if ko.take(i as int).contains(x) {
                        let t = ko.take(i as int);
                        let y = choose|y: int| 0 <= y < t.len() && #[trigger] t[y] == x;
                        assert(ko.take(i + 1)[y] == x);
                    }
                    if x == k {
                        assert(ko.take(i + 1)[i as int] == x);
                    }
                }
                assert(!ko.take(i as int).contains(k)) by {
                    if ko.take(i as int).contains(k) {
                        let t = ko.take(i as int);
                        let x = choose|x: int| 0 <= x < t.len() && #[trigger] t[x] == k;
                        assert(ko[x] == ko[i as int]);
                    }
                }
                assert(count_of(done, k) == 0);
                assert(mine.map() =~= max_counts(start, done2));
            }
            i = i + 1;
        }
        proof {
            assert(ko.take(n as int) =~= ko);
            assert(restrict_to(theirs.map(), ko) =~= theirs.map());
        }
    }
}

impl Clone for PNCounter {
    fn clone(&self) -> (c: Self)
        ensures
            self.wf() ==> c.wf() && c.pos() == self.pos() && c.neg() == self.neg(),
    {
        PNCounter { positive: self.positive.copy(), negative: self.negative.copy() }
    }
}

impl CRDT for PNCounter {
    open spec fn crdt_wf(&self) -> bool {
        self.wf()
    }

    /// For each actor, take the maximum of the positive and of the negative
    /// counts.
    fn merge(&mut self, other: &Self)
        ensures
            final(self).pos() == max_counts(old(self).pos(), other.pos()),
            final(self).neg() == max_counts(old(self).neg(), other.neg()),
    {
        Self::merge_counts(&mut self.positive, &other.positive);
        Self::merge_counts(&mut self.negative, &other.negative);
    }

    /// A PN-Counter has no happens-before relationship.
    fn happens_before(&self, _other: &Self) -> (r: bool)
        ensures
            !r,
    {
        false
    }
}

impl Default for PNCounter {
    fn default() -> (c: Self)
        ensures
            c.wf(),
            c.pos() == Map::<Seq<char>, u64>::empty(),
            c.neg() == Map::<Seq<char>, u64>::empty(),
    {
        Self::new()
    }
}

/// Merging per-actor counts is commutative.
pub proof fn lemma_max_counts_commutative(a: Map<Seq<char>, u64>, b: Map<Seq<char>, u64>)
    ensures
        max_counts(a, b) == max_counts(b, a),
{
    assert(max_counts(a, b) =~= max_counts(b, a));
}

/// Merging per-actor counts is associative.
pub proof fn lemma_max_counts_associative(
    a: Map<Seq<char>, u64>,
    b: Map<Seq<char>, u64>,
    c: Map<Seq<char>, u64>,
)
    ensures
        max_counts(max_counts(a, b), c) == max_counts(a, max_counts(b, c)),
{
    assert(max_counts(max_counts(a, b), c) =~= max_counts(a, max_counts(b, c)));
}

/// Merging per-actor counts with themselves changes nothing.
pub proof fn lemma_max_counts_idempotent(a: Map<Seq<char>, u64>)
    ensures
        max_counts(a, a) == a,
{
    assert(max_counts(a, a) =~= a);
}

/// A merge never loses an increment: every actor's count after the merge is
/// at least its count on either side.
pub proof fn lemma_max_counts_dominates(a: Map<Seq<char>, u64>, b: Map<Seq<char>, u64>, k: Seq<char>)
    ensures
        count_of(max_counts(a, b), k) >= count_of(a, k),
        count_of(max_counts(a, b), k) >= count_of(b, k),
{
}

} // verus!
