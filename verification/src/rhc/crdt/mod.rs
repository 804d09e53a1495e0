//! CRDT (Conflict-free Replicated Data Type) implementations for RHC.

use vstd::prelude::*;
use vstd::pervasive::strictly_cloned;
use crate::keyed::KeyEq;
use crate::rhc::hlc::HLCTimestamp;

pub mod lease_state;
pub mod lww_register;
pub mod mv_register;
pub mod or_set;
pub mod pn_counter;
pub mod rga;

pub use lease_state::LeaseStateCRDT;
pub use lww_register::LWWRegister;
pub use mv_register::MVRegister;
pub use or_set::ORSet;
pub use pn_counter::PNCounter;


verus! {

/// Trait for all CRDTs in RHC
pub trait CRDT: Clone {
    /// Whether the replica is internally consistent.
    spec fn crdt_wf(&self) -> bool;

    /// Merge another CRDT into this one
    fn merge(&mut self, other: &Self)
        requires
            old(self).crdt_wf(),
            other.crdt_wf(),
        ensures
            final(self).crdt_wf(),
    ;

    /// Check if this CRDT is causally before another
    fn happens_before(&self, other: &Self) -> bool;
}

/// A value with an associated HLC timestamp
#[derive(Debug, PartialEq, Eq)]
pub struct TimestampedValue<T> {
    pub value: T,
    pub timestamp: HLCTimestamp,
}

impl<T> TimestampedValue<T> {
    pub fn new(value: T, timestamp: HLCTimestamp) -> (tv: Self)
        ensures
            tv.value == value,
            tv.timestamp == timestamp,
    {
        Self { value, timestamp }
    }
}

impl<T: Clone> Clone for TimestampedValue<T> {
    fn clone(&self) -> (tv: Self)
        ensures
            tv.timestamp == self.timestamp,
            strictly_cloned(self.value, tv.value),
    {
        TimestampedValue { value: self.value.clone(), timestamp: self.timestamp }
    }
}

/// Actor ID for CRDT operations (node or consensus group ID)
#[derive(Debug, PartialEq, Eq, Hash, PartialOrd, Ord)]
pub struct ActorId(pub String);

impl View for ActorId {
    type V = Seq<char>;

    open spec fn view(&self) -> Seq<char> {
        self.0@
    }
}

impl Clone for ActorId {
    fn clone(&self) -> (a: Self)
        ensures
            a == *self,
    {
        ActorId(self.0.clone())
    }
}

impl ActorId {
    pub fn new(id: &str) -> (a: Self)
        ensures
            a@ == id@,
    {
        ActorId(String::from_str(id))
    }
}

impl KeyEq for ActorId {
    open spec fn key_ok() -> bool {
        true
    }

    fn key_eq(&self, other: &Self) -> (r: bool) {
        self.0 == other.0
    }

    fn key_clone(&self) -> (r: Self) {
        self.clone()
    }
}

} // verus!
