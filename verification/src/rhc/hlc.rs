//! Hybrid Logical Clock (HLC).
//!
//! An HLC timestamp pairs physical time (milliseconds since the Unix epoch)
//! with a logical counter that breaks ties, so that timestamps order events
//! across nodes and respect happens-before even under bounded clock skew.

use vstd::prelude::*;
use vstd::std_specs::cmp::PartialOrdSpec;
use vstd::std_specs::cmp::PartialOrdSpecImpl;
use std::cmp::Ordering;
use std::time::{Duration, SystemTime, SystemTimeError};
use crate::text::{decimal, push_decimal};

verus! {

/// Maximum clock drift allowed between nodes (in milliseconds).
/// A remote timestamp further ahead of the local clock is refused.
pub const MAX_CLOCK_DRIFT_MS: u64 = 60_000;

#[verifier::external_type_specification]
#[verifier::external_body]
pub struct ExSystemTime(SystemTime);

#[verifier::external_type_specification]
#[verifier::external_body]
pub struct ExSystemTimeError(SystemTimeError);

/// A Hybrid Logical Clock timestamp. Timestamps are ordered first by
/// physical time, then by the logical counter.
#[derive(Debug, Clone, Copy, PartialEq, Eq, Ord, Hash, Structural)]
pub struct HLCTimestamp {
    /// Physical time component (milliseconds since Unix epoch)
    pub physical: u64,
    /// Logical counter to break ties when physical time is equal
    pub logical: u32,
}

impl View for HLCTimestamp {
    type V = HLCTimestamp;

    open spec fn view(&self) -> HLCTimestamp {
        *self
    }
}

impl PartialOrd for HLCTimestamp {
    fn partial_cmp(&self, other: &Self) -> (r: Option<Ordering>) {
        if self.physical < other.physical {
            Some(Ordering::Less)
        } else if self.physical > other.physical {
            Some(Ordering::Greater)
        } else if self.logical < other.logical {
            Some(Ordering::Less)
        } else if self.logical > other.logical {
            Some(Ordering::Greater)
        } else {
            Some(Ordering::Equal)
        }
    }
}

impl PartialOrdSpecImpl for HLCTimestamp {
    open spec fn obeys_partial_cmp_spec() -> bool {
        true
    }

    open spec fn partial_cmp_spec(&self, other: &Self) -> Option<Ordering> {
        if self.precedes(*other) {
            Some(Ordering::Less)
        } else if other.precedes(*self) {
            Some(Ordering::Greater)
        } else {
            Some(Ordering::Equal)
        }
    }
}

/// Timestamps compare as `precedes` orders them: `<` holds exactly when the
/// first comes before the second (earlier physical time, or the same
/// physical time and a smaller logical counter), and they compare equal
/// exactly when they are the same timestamp.
pub proof fn lemma_timestamp_order(a: HLCTimestamp, b: HLCTimestamp)
    ensures
        (PartialOrdSpec::partial_cmp_spec(&a, &b) == Some(Ordering::Less)) <==> a.precedes(b),
        (PartialOrdSpec::partial_cmp_spec(&a, &b) == Some(Ordering::Greater)) <==> b.precedes(a),
        (PartialOrdSpec::partial_cmp_spec(&a, &b) == Some(Ordering::Equal)) <==> a == b,
{
}

impl crate::keyed::KeyEq for HLCTimestamp {
    open spec fn key_ok() -> bool {
        true
    }

    fn key_eq(&self, other: &Self) -> (r: bool) {
        self.physical == other.physical && self.logical == other.logical
    }

    fn key_clone(&self) -> (r: Self) {
        *self
    }
}

impl HLCTimestamp {
    /// Strict timestamp order: physical time first, then the logical counter.
    pub open spec fn precedes(self, other: HLCTimestamp) -> bool {
        ||| self.physical < other.physical
        ||| (self.physical == other.physical && self.logical < other.logical)
    }

    /// Non-strict timestamp order.
    pub open spec fn precedes_or_eq(self, other: HLCTimestamp) -> bool {
        self.precedes(other) || self == other
    }

    /// The text form `physical:logical`.
    pub open spec fn text(self) -> Seq<char> {
        decimal(self.physical as nat) + ":"@ + decimal(self.logical as nat)
    }

    /// Create a new HLC timestamp with given physical time and logical counter
    pub fn new(physical: u64, logical: u32) -> (ts: Self)
        ensures
            ts.physical == physical,
            ts.logical == logical,
    {
        Self { physical, logical }
    }

    /// Create a zero timestamp (used for initialization)
    pub fn zero() -> (ts: Self)
        ensures
            ts.physical == 0,
            ts.logical == 0,
    {
        Self { physical: 0, logical: 0 }
    }

    /// Check if this timestamp is zero
    pub fn is_zero(&self) -> (r: bool)
        ensures
            r == (self.physical == 0 && self.logical == 0),
    {
        self.physical == 0 && self.logical == 0
    }

    /// Whether this timestamp comes strictly before `other`.
    pub fn is_before(&self, other: &HLCTimestamp) -> (r: bool)
        ensures
            r == self.precedes(*other),
    {
        *self < *other
    }

    /// The physical time as a `SystemTime`: the Unix epoch plus `physical`
    /// milliseconds, or nothing where the platform's `SystemTime` cannot
    /// hold that time.
    pub fn as_system_time(&self) -> Option<SystemTime> {
        epoch_plus(millis_duration(self.physical))
    }

    /// Check if this timestamp is within acceptable drift of current time:
    /// timestamps in the past are always acceptable, future ones only up to
    /// `MAX_CLOCK_DRIFT_MS` ahead.
    pub fn is_within_drift(&self, now_ms: u64) -> (r: bool)
        ensures
            r == (self.physical <= now_ms + MAX_CLOCK_DRIFT_MS),
    {
        if self.physical > now_ms {
            self.physical - now_ms <= MAX_CLOCK_DRIFT_MS
        } else {
            true
        }
    }

    /// The text form `physical:logical`, e.g. `1234567890:42`.
    pub fn to_string(&self) -> (s: String)
        ensures
            s@ == self.text(),
    {
        let mut s = String::new();
        push_decimal(&mut s, self.physical as u128);
        s.append(":");
        push_decimal(&mut s, self.logical as u128);
        s
    }
}

/// `std::time::Duration::from_millis`; nothing is stated of the result,
/// which only feeds `epoch_plus`.
#[verifier::external_body]
fn millis_duration(ms: u64) -> Duration {
    Duration::from_millis(ms)
}

/// `SystemTime::checked_add` on the Unix epoch: the epoch plus `d`, or
/// nothing where the platform's `SystemTime` cannot hold the result. Which
/// times a platform holds is its own, so nothing is stated of the result.
#[verifier::external_body]
fn epoch_plus(d: Duration) -> Option<SystemTime> {
    SystemTime::UNIX_EPOCH.checked_add(d)
}

/// `SystemTime::elapsed` on the Unix epoch: the time since 1970 by the
/// system clock, or an error if the clock is set before it. It depends on the
/// machine's clock, so nothing is stated of it.
#[verifier::external_body]
pub(crate) fn elapsed_since_epoch() -> Result<Duration, SystemTimeError> {
    SystemTime::UNIX_EPOCH.elapsed()
}

/// `Duration::as_millis`; the result is only used as a clock reading, of
/// which nothing is stated.
#[verifier::external_body]
fn duration_millis(d: &Duration) -> u128 {
    d.as_millis()
}

/// `Duration::as_nanos`; the result is only used as a clock reading, of
/// which nothing is stated.
#[verifier::external_body]
pub(crate) fn duration_nanos(d: &Duration) -> u128 {
    d.as_nanos()
}

/// A source of physical time in milliseconds since the Unix epoch.
pub trait PhysicalClock {
    /// Whether the clock may be read.
    spec fn ready(&self) -> bool;

    /// Whether `ms` is a reading the clock may give.
    spec fn may_read(&self, ms: u64) -> bool;

    /// Reads the clock.
    fn now_ms(&self) -> (ms: u64)
        requires
            self.ready(),
        ensures
            self.may_read(ms),
    ;
}

/// The system's wall clock.
pub struct SystemClock;

impl PhysicalClock for SystemClock {
    open spec fn ready(&self) -> bool {
        true
    }

    /// Any reading: the wall clock is the machine's.
    open spec fn may_read(&self, ms: u64) -> bool {
        true
    }

    /// Milliseconds since the Unix epoch, truncated to 64 bits; a clock set
    /// before 1970 reads as 0.
    fn now_ms(&self) -> u64 {
        match elapsed_since_epoch() {
            Ok(d) => {
                let ms = duration_millis(&d);
                ms as u64
            },
            Err(_) => 0,
        }
    }
}

impl<F: Fn() -> u64> PhysicalClock for Box<F> {
    open spec fn ready(&self) -> bool {
        call_requires(**self, ())
    }

    /// What the function may answer when called.
    open spec fn may_read(&self, ms: u64) -> bool {
        call_ensures(**self, (), ms)
    }

    /// Calls the function.
    fn now_ms(&self) -> (ms: u64)
        ensures
            call_ensures(**self, (), ms),
    {
        (**self)()
    }
}

/// A Hybrid Logical Clock.
pub struct HLC<C = SystemClock> {
    /// Last known physical time (milliseconds since epoch)
    last_physical: u64,
    /// Logical counter for the last physical time
    last_logical: u64,
    /// Where physical time is read from
    clock: C,
}

/// Errors that can occur with HLC operations
#[derive(Debug, Clone, PartialEq)]
pub enum HLCError {
    /// Clock drift between nodes exceeds maximum allowed
    ClockDriftExceeded { remote_physical: u64, local_physical: u64, max_drift: u64 },
    /// The logical counter that the update would increment is already at
    /// the largest value it can hold.
    LogicalCounterExhausted,
}

impl HLC<SystemClock> {
    /// Create a new HLC instance reading the system clock
    pub fn new() -> (h: Self)
        ensures
            h.last_physical_spec() == 0,
            h.last_logical_spec() == 0,
    {
        HLC { last_physical: 0, last_logical: 0, clock: SystemClock }
    }
}

impl Default for HLC {
    fn default() -> (h: Self)
        ensures
            h.last_physical_spec() == 0,
            h.last_logical_spec() == 0,
    {
        HLC::new()
    }
}

impl<C: PhysicalClock> HLC<C> {
    /// The physical part of the last timestamp generated or received.
    pub closed spec fn last_physical_spec(&self) -> u64 {
        self.last_physical
    }

    /// The logical counter of the last timestamp generated or received.
    pub closed spec fn last_logical_spec(&self) -> u64 {
        self.last_logical
    }

    /// The clock the HLC reads.
    pub closed spec fn clock_spec(&self) -> C {
        self.clock
    }

    /// The last timestamp generated or received (counter truncated to 32 bits).
    pub open spec fn last_spec(&self) -> HLCTimestamp {
        HLCTimestamp { physical: self.last_physical_spec(), logical: self.last_logical_spec() as u32 }
    }

    /// Create a new HLC instance reading the given clock
    pub fn new_with_clock(clock: C) -> (h: Self)
        ensures
            h.last_physical_spec() == 0,
            h.last_logical_spec() == 0,
            h.clock_spec() == clock,
    {
        HLC { last_physical: 0, last_logical: 0, clock }
    }

    /// Reads the physical clock.
    fn physical_now(&self) -> (ms: u64)
        requires
            self.clock.ready(),
        ensures
            self.clock.may_read(ms),
    {
        self.clock.now_ms()
    }

    /// Generates a timestamp for a local event at physical time `physical_now`:
    /// if physical time has advanced, `(physical_now, 0)`, otherwise the last
    /// physical time with the logical counter incremented.
    pub fn now_at(&mut self, physical_now: u64) -> (ts: HLCTimestamp)
        requires
            physical_now <= old(self).last_physical_spec() ==> old(self).last_logical_spec() < u64::MAX,
        ensures
            physical_now > old(self).last_physical_spec() ==> {
                &&& ts.physical == physical_now
                &&& ts.logical == 0
                &&& final(self).last_logical_spec() == 0
            },
            physical_now <= old(self).last_physical_spec() ==> {
                &&& ts.physical == old(self).last_physical_spec()
                &&& final(self).last_logical_spec() == old(self).last_logical_spec() + 1
                &&& ts.logical == (old(self).last_logical_spec() + 1) as u32
            },
            final(self).last_physical_spec() == ts.physical,
            final(self).last_spec() == ts,
            final(self).clock_spec() == old(self).clock_spec(),
            old(self).last_logical_spec() < u32::MAX ==> old(self).last_spec().precedes(ts),
    {
        let last_physical = self.last_physical;
        let last_logical = self.last_logical;
        let (new_physical, new_logical) = if physical_now > last_physical {
            (physical_now, 0u64)
        } else {
            (last_physical, last_logical + 1)
        };
        self.last_physical = new_physical;
        self.last_logical = new_logical;
        HLCTimestamp { physical: new_physical, logical: new_logical as u32 }
    }

    /// Generate a new HLC timestamp from the clock's current reading.
    pub fn now(&mut self) -> (ts: HLCTimestamp)
        requires
            old(self).last_logical_spec() < u64::MAX,
            old(self).clock_spec().ready(),
        ensures
            ts.physical >= old(self).last_physical_spec(),
            final(self).last_physical_spec() == ts.physical,
            final(self).last_logical_spec() <= old(self).last_logical_spec() + 1,
            final(self).last_spec() == ts,
            final(self).clock_spec() == old(self).clock_spec(),
            old(self).last_logical_spec() < u32::MAX ==> old(self).last_spec().precedes(ts),
    {
        let physical_now = self.physical_now();
        self.now_at(physical_now)
    }

    /// Incorporates a timestamp received from another node, with the local
    /// clock reading `physical_now`. Refuses a remote timestamp more than
    /// `MAX_CLOCK_DRIFT_MS` ahead of the local clock; otherwise the new
    /// physical time is the maximum of the three, and the logical counter
    /// goes past those of the timestamps at that physical time, so the new
    /// timestamp comes after both the remote one and the last one.
    pub fn update_at(&mut self, remote: HLCTimestamp, physical_now: u64) -> (r: Result<
        HLCTimestamp,
        HLCError,
    >)
        requires
            !update_overflows(
                physical_now,
                remote,
                old(self).last_physical_spec(),
                old(self).last_logical_spec() as u32,
            ),
        ensures
            r is Err <==> remote.physical > physical_now + MAX_CLOCK_DRIFT_MS,
            r matches Err(e) ==> {
                &&& e == (HLCError::ClockDriftExceeded {
                    remote_physical: remote.physical,
                    local_physical: physical_now,
                    max_drift: MAX_CLOCK_DRIFT_MS,
                })
                &&& *final(self) == *old(self)
            },
            r matches Ok(ts) ==> {
                &&& ts.physical == max3(
                    physical_now,
                    remote.physical,
                    old(self).last_physical_spec(),
                )
                &&& ts.logical == update_logical(
                    physical_now,
                    remote,
                    old(self).last_physical_spec(),
                    old(self).last_logical_spec() as u32,
                )
                &&& final(self).last_physical_spec() == ts.physical
                &&& final(self).last_logical_spec() == ts.logical as u64
                &&& final(self).last_spec() == ts
                &&& final(self).clock_spec() == old(self).clock_spec()
                &&& remote.precedes(ts)
                &&& ts.physical >= physical_now
                &&& old(self).last_spec().precedes(ts)
            },
    {
        if !remote.is_within_drift(physical_now) {
            return Err(
                HLCError::ClockDriftExceeded {
                    remote_physical: remote.physical,
                    local_physical: physical_now,
                    max_drift: MAX_CLOCK_DRIFT_MS,
                },
            );
        }
        let last_physical = self.last_physical;
        let last_logical = self.last_logical;
        let max_a = if physical_now > remote.physical {
            physical_now
        } else {
            remote.physical
        };
        let max_physical = if max_a > last_physical {
            max_a
        } else {
            last_physical
        };
        let l = #[verifier::truncate] (last_logical as u32);
        let new_logical: u32 = if max_physical == remote.physical && (max_physical == physical_now
            || max_physical == last_physical) {
            let m = if remote.logical > l {
                remote.logical
            } else {
                l
            };
            m + 1
        } else if max_physical == last_physical {
            l + 1
        } else if max_physical == remote.physical {
            remote.logical + 1
        } else {
            0
        };
        self.last_physical = max_physical;
        self.last_logical = new_logical as u64;
        Ok(HLCTimestamp { physical: max_physical, logical: new_logical })
    }

    /// Update the HLC with a timestamp received from another node, at the
    /// clock's current reading (see `update_at`). Returns the new local
    /// timestamp after incorporating the remote one. Where the logical
    /// counter that the update would increment is already at `u32::MAX`,
    /// the update is refused and the clock left as it was.
    pub fn update(&mut self, remote: HLCTimestamp) -> (r: Result<HLCTimestamp, HLCError>)
        requires
            old(self).clock_spec().ready(),
        ensures
            r matches Err(e) ==> *final(self) == *old(self),
            r matches Err(HLCError::ClockDriftExceeded { remote_physical, local_physical, max_drift }) ==> {
                &&& remote_physical == remote.physical
                &&& max_drift == MAX_CLOCK_DRIFT_MS
                &&& remote.physical > local_physical + MAX_CLOCK_DRIFT_MS
                &&& old(self).clock_spec().may_read(local_physical)
            },
            r matches Err(HLCError::LogicalCounterExhausted) ==> {
                &&& remote.logical == u32::MAX || (old(self).last_logical_spec() as u32) == u32::MAX
                &&& exists|ms: u64| #[trigger] old(self).clock_spec().may_read(ms) && update_overflows(
                    ms,
                    remote,
                    old(self).last_physical_spec(),
                    old(self).last_logical_spec() as u32,
                )
            },
            r matches Ok(ts) ==> {
                &&& ts.physical >= remote.physical
                &&& ts.physical >= old(self).last_physical_spec()
                &&& final(self).last_physical_spec() == ts.physical
                &&& final(self).last_logical_spec() == ts.logical as u64
                &&& final(self).last_spec() == ts
                &&& final(self).clock_spec() == old(self).clock_spec()
                &&& remote.precedes(ts)
                &&& old(self).last_spec().precedes(ts)
                &&& exists|ms: u64| #[trigger] old(self).clock_spec().may_read(ms) && ts.physical == max3(
                    ms,
                    remote.physical,
                    old(self).last_physical_spec(),
                ) && ts.logical == update_logical(
                    ms,
                    remote,
                    old(self).last_physical_spec(),
                    old(self).last_logical_spec() as u32,
                )
            },
    {
        let physical_now = self.physical_now();
        if overflowing_update(physical_now, remote, self.last_physical, self.last_logical as u32) {
            return Err(HLCError::LogicalCounterExhausted);
        }
        self.update_at(remote, physical_now)
    }

    /// Get the last timestamp generated or received by this HLC
    pub fn last(&self) -> (ts: HLCTimestamp)
        ensures
            ts == self.last_spec(),
    {
        HLCTimestamp { physical: self.last_physical, logical: self.last_logical as u32 }
    }

    /// The full logical counter of the last timestamp.
    pub fn logical_counter(&self) -> (r: u64)
        ensures
            r == self.last_logical_spec(),
    {
        self.last_logical
    }
}

/// The largest of three physical times.
pub open spec fn max3(a: u64, b: u64, c: u64) -> u64 {
    let m = if a > b { a } else { b };
    if m > c { m } else { c }
}

/// The inputs on which an update's logical counter would pass `u32::MAX`:
/// the remote timestamp is accepted and the counter it would increment is
/// already at the maximum.
pub open spec fn update_overflows(
    physical_now: u64,
    remote: HLCTimestamp,
    last_physical: u64,
    last_logical: u32,
) -> bool {
    &&& remote.physical <= physical_now + MAX_CLOCK_DRIFT_MS
    &&& {
        let m = max3(physical_now, remote.physical, last_physical);
        if m == remote.physical && (m == physical_now || m == last_physical) {
            remote.logical == u32::MAX || last_logical == u32::MAX
        } else if m == last_physical {
            last_logical == u32::MAX
        } else if m == remote.physical {
            remote.logical == u32::MAX
        } else {
            false
        }
    }
}

/// Whether an update with these inputs would take a logical counter past
/// `u32::MAX` (see `update_overflows`).
fn overflowing_update(physical_now: u64, remote: HLCTimestamp, last_physical: u64, last_logical: u32) -> (r: bool)
    ensures
        r == update_overflows(physical_now, remote, last_physical, last_logical),
{
    if !remote.is_within_drift(physical_now) {
        return false;
    }
    let max_a = if physical_now > remote.physical {
        physical_now
    } else {
        remote.physical
    };
    let m = if max_a > last_physical {
        max_a
    } else {
        last_physical
    };
    if m == remote.physical && (m == physical_now || m == last_physical) {
        remote.logical == u32::MAX || last_logical == u32::MAX
    } else if m == last_physical {
        last_logical == u32::MAX
    } else if m == remote.physical {
        remote.logical == u32::MAX
    } else {
        false
    }
}

/// The logical counter that an update chooses, given the local clock
/// reading, the remote timestamp and the last timestamp: past the counter
/// of every timestamp whose physical time is the new maximum (the remote
/// one and the last one); 0 when only the clock reading reaches it.
pub open spec fn update_logical(
    physical_now: u64,
    remote: HLCTimestamp,
    last_physical: u64,
    last_logical: u32,
) -> int {
    let m = max3(physical_now, remote.physical, last_physical);
    if m == remote.physical && (m == physical_now || m == last_physical) {
        (if remote.logical > last_logical { remote.logical } else { last_logical }) + 1
    } else if m == last_physical {
        last_logical + 1
    } else if m == remote.physical {
        remote.logical + 1
    } else {
        0
    }
}

/// The text of a drift error:
/// `Clock drift exceeded: remote=R, local=L, max_drift=Mms`.
pub open spec fn drift_text(remote_physical: u64, local_physical: u64, max_drift: u64) -> Seq<char> {
    "Clock drift exceeded: remote="@ + decimal(remote_physical as nat) + ", local="@ + decimal(
        local_physical as nat,
    ) + ", max_drift="@ + decimal(max_drift as nat) + "ms"@
}

/// The debug form of a drift error:
/// `ClockDriftExceeded { remote_physical: R, local_physical: L, max_drift: M }`.
pub open spec fn drift_debug_text(remote_physical: u64, local_physical: u64, max_drift: u64) -> Seq<
    char,
> {
    "ClockDriftExceeded { remote_physical: "@ + decimal(remote_physical as nat)
        + ", local_physical: "@ + decimal(local_physical as nat) + ", max_drift: "@ + decimal(
        max_drift as nat,
    ) + " }"@
}

impl HLCError {
    /// The spec of the displayed text of the error.
    pub open spec fn text(self) -> Seq<char> {
        match self {
            HLCError::ClockDriftExceeded { remote_physical, local_physical, max_drift } =>
                drift_text(remote_physical, local_physical, max_drift),
            HLCError::LogicalCounterExhausted => "Logical counter exhausted"@,
        }
    }

    /// The spec of the debug text of the error.
    pub open spec fn debug_text(self) -> Seq<char> {
        match self {
            HLCError::ClockDriftExceeded { remote_physical, local_physical, max_drift } =>
                drift_debug_text(remote_physical, local_physical, max_drift),
            HLCError::LogicalCounterExhausted => "LogicalCounterExhausted"@,
        }
    }

    /// The displayed text of the error, e.g.
    /// `Clock drift exceeded: remote=70000, local=1, max_drift=60000ms`.
    pub fn to_string(&self) -> (s: String)
        ensures
            s@ == self.text(),
    {
        let (remote_physical, local_physical, max_drift) = match self {
            HLCError::ClockDriftExceeded { remote_physical, local_physical, max_drift } => (
                remote_physical,
                local_physical,
                max_drift,
            ),
            HLCError::LogicalCounterExhausted => {
                return String::from_str("Logical counter exhausted");
            },
        };
        let mut s = String::new();
        s.append("Clock drift exceeded: remote=");
        push_decimal(&mut s, *remote_physical as u128);
        s.append(", local=");
        push_decimal(&mut s, *local_physical as u128);
        s.append(", max_drift=");
        push_decimal(&mut s, *max_drift as u128);
        s.append("ms");
        s
    }

    /// The debug text of the error, as `{:?}` prints it.
    pub fn debug_string(&self) -> (s: String)
        ensures
            s@ == self.debug_text(),
    {
        let (remote_physical, local_physical, max_drift) = match self {
            HLCError::ClockDriftExceeded { remote_physical, local_physical, max_drift } => (
                remote_physical,
                local_physical,
                max_drift,
            ),
            HLCError::LogicalCounterExhausted => {
                return String::from_str("LogicalCounterExhausted");
            },
        };
        let mut s = String::new();
        s.append("ClockDriftExceeded { remote_physical: ");
        push_decimal(&mut s, *remote_physical as u128);
        s.append(", local_physical: ");
        push_decimal(&mut s, *local_physical as u128);
        s.append(", max_drift: ");
        push_decimal(&mut s, *max_drift as u128);
        s.append(" }");
        s
    }
}


/// Causality across nodes: a timestamp taken after receiving one comes
/// after it. `update` answers a timestamp after the one received and makes
/// it the clock's last; `now` then answers one after the last (see their
/// contracts); and the order of timestamps is transitive.
pub proof fn lemma_later_than_received(remote: HLCTimestamp, received: HLCTimestamp, next: HLCTimestamp)
    requires
        remote.precedes(received),
        received.precedes(next),
    ensures
        remote.precedes(next),
{
}

} // verus!
