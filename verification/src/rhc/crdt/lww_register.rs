//! LWW-Register (Last-Write-Wins Register) CRDT implementation.

use vstd::prelude::*;
use vstd::pervasive::cloned;
use crate::rhc::crdt::{CRDT, TimestampedValue};
use crate::rhc::hlc::HLCTimestamp;

verus! {

/// Join of two register states: the later of the two (by timestamp); on a
/// tie, or when the other is empty, the first.
pub open spec fn lww_join<T>(
    a: Option<TimestampedValue<T>>,
    b: Option<TimestampedValue<T>>,
) -> Option<TimestampedValue<T>> {
    match (a, b) {
        (_, None) => a,
        (None, Some(y)) => b,
        (Some(x), Some(y)) => if x.timestamp.precedes(y.timestamp) {
            b
        } else {
            a
        },
    }
}

/// `copy` is `orig` with its value possibly cloned.
pub open spec fn copy_of<T: Clone>(
    orig: Option<TimestampedValue<T>>,
    copy: Option<TimestampedValue<T>>,
) -> bool {
    match (orig, copy) {
        (None, None) => true,
        (Some(x), Some(y)) => x.timestamp == y.timestamp && cloned(x.value, y.value),
        _ => false,
    }
}

/// Last-Write-Wins Register - stores a single value with timestamp.
/// Concurrent writes are resolved by timestamp (last writer wins).
#[derive(Debug)]
pub struct LWWRegister<T: Clone> {
    value: Option<TimestampedValue<T>>,
}

impl<T: Clone> View for LWWRegister<T> {
    type V = Option<TimestampedValue<T>>;

    open spec fn view(&self) -> Option<TimestampedValue<T>> {
        self.entry()
    }
}

impl<T: Clone> LWWRegister<T> {
    /// The current value and its timestamp, if any.
    pub closed spec fn entry(&self) -> Option<TimestampedValue<T>> {
        self.value
    }

    pub fn new() -> (r: Self)
        ensures
            r.entry() is None,
    {
        Self { value: None }
    }

    /// Set the value with a timestamp; it only takes effect if the register
    /// is empty or the timestamp is later than the current one.
    pub fn set(&mut self, value: T, timestamp: HLCTimestamp)
        ensures
            final(self).entry() == lww_join(
                old(self).entry(),
                Some(TimestampedValue { value, timestamp }),
            ),
    {
        match &self.value {
            None => {
                self.value = Some(TimestampedValue::new(value, timestamp));
            },
            Some(current) => {
                if current.timestamp.is_before(&timestamp) {
                    self.value = Some(TimestampedValue::new(value, timestamp));
                }
            },
        }
    }

    /// Get the current value
    pub fn get(&self) -> (r: Option<&T>)
        ensures
            r matches Some(v) ==> self.entry() matches Some(e) && *v == e.value,
            r is None <==> self.entry() is None,
    {
        match &self.value {
            Some(tv) => Some(&tv.value),
            None => None,
        }
    }

    /// Get the current value with timestamp
    pub fn get_timestamped(&self) -> (r: Option<&TimestampedValue<T>>)
        ensures
            r matches Some(v) ==> self.entry() == Some(*v),
            r is None <==> self.entry() is None,
    {
        self.value.as_ref()
    }

    /// Get the timestamp of the current value
    pub fn timestamp(&self) -> (r: Option<HLCTimestamp>)
        ensures
            r matches Some(t) ==> self.entry() matches Some(e) && t == e.timestamp,
            r is None <==> self.entry() is None,
    {
        match &self.value {
            Some(tv) => Some(tv.timestamp),
            None => None,
        }
    }
}

impl<T: Clone> Clone for LWWRegister<T> {
    fn clone(&self) -> (r: Self)
        ensures
            copy_of(self.entry(), r.entry()),
    {
        match &self.value {
            Some(tv) => LWWRegister { value: Some(tv.clone()) },
            None => LWWRegister { value: None },
        }
    }
}

impl<T: Clone> CRDT for LWWRegister<T> {
    open spec fn crdt_wf(&self) -> bool {
        true
    }

    /// Keep the later of the two values (by timestamp)
    fn merge(&mut self, other: &Self)
        ensures
            copy_of(lww_join(old(self).entry(), other.entry()), final(self).entry()),
            lww_join(old(self).entry(), other.entry()) == old(self).entry() ==> final(self).entry() == old(self).entry(),
    {
        match &other.value {
            None => {},
            Some(other_val) => {
                let take = match &self.value {
                    None => true,
                    Some(self_val) => self_val.timestamp.is_before(&other_val.timestamp),
                };
                if take {
                    self.value = Some(other_val.clone());
                }
            },
        }
    }

    /// A register is causally before another when it is empty and the
    /// other is not, or its timestamp is earlier.
    fn happens_before(&self, other: &Self) -> (r: bool)
        ensures
            r == match (self.entry(), other.entry()) {
                (Some(a), Some(b)) => a.timestamp.precedes(b.timestamp),
                (None, Some(_)) => true,
                _ => false,
            },
    {
        match (&self.value, &other.value) {
            (Some(self_val), Some(other_val)) => self_val.timestamp.is_before(&other_val.timestamp),
            (None, Some(_)) => true,
            _ => false,
        }
    }
}

impl<T: Clone> Default for LWWRegister<T> {
    fn default() -> (r: Self)
        ensures
            r.entry() is None,
    {
        Self::new()
    }
}

/// Merging register states is associative.
pub proof fn lemma_lww_join_associative<T>(
    a: Option<TimestampedValue<T>>,
    b: Option<TimestampedValue<T>>,
    c: Option<TimestampedValue<T>>,
)
    ensures
        lww_join(lww_join(a, b), c) == lww_join(a, lww_join(b, c)),
{
}

/// Merging a register state with itself changes nothing.
pub proof fn lemma_lww_join_idempotent<T>(a: Option<TimestampedValue<T>>)
    ensures
        lww_join(a, a) == a,
{
}

/// Merging register states is commutative, unless both hold different
/// values written at the same timestamp (then each side keeps its own).
pub proof fn lemma_lww_join_commutative<T>(
    a: Option<TimestampedValue<T>>,
    b: Option<TimestampedValue<T>>,
)
    requires
        !(a matches Some(x) && b matches Some(y) && x.timestamp == y.timestamp && x != y),
    ensures
        lww_join(a, b) == lww_join(b, a),
{
}

/// After a merge the register holds the latest timestamp of the two.
pub proof fn lemma_lww_join_latest<T>(a: Option<TimestampedValue<T>>, b: Option<TimestampedValue<T>>)
    ensures
        a matches Some(x) ==> lww_join(a, b) matches Some(j) && x.timestamp.precedes_or_eq(j.timestamp),
        b matches Some(y) ==> lww_join(a, b) matches Some(j) && y.timestamp.precedes_or_eq(j.timestamp),
{
}

} // verus!
