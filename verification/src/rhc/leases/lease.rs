//! Core lease data structures.

use vstd::prelude::*;
use crate::path::{FsPath, is_prefix, parent_of, render};
use crate::rhc::hlc::{HLCTimestamp, elapsed_since_epoch, duration_nanos};
use crate::text::{decimal, push_decimal};
use crate::time::Duration;

verus! {

/// Default lease duration (30 seconds), in milliseconds.
pub const DEFAULT_LEASE_DURATION_MS: u64 = 30_000;

/// Unique identifier for a lease
#[derive(Debug, Clone, Copy, PartialEq, Eq, Hash, Structural)]
pub struct LeaseId(pub u128);

impl LeaseId {
    /// Generate a new lease ID from the system clock (nanoseconds since the
    /// Unix epoch; 0 if the clock is set before it). Which ID comes out
    /// depends on the time of the call.
    pub fn new() -> LeaseId {
        match elapsed_since_epoch() {
            Ok(d) => LeaseId(duration_nanos(&d)),
            Err(_) => LeaseId(0),
        }
    }

    /// The debug text `LeaseId(N)`.
    pub open spec fn debug_text(self) -> Seq<char> {
        "LeaseId("@ + decimal(self.0 as nat) + ")"@
    }

    /// Appends the debug text `LeaseId(N)` to `out`.
    pub fn push_debug(&self, out: &mut String)
        ensures
            final(out)@ == old(out)@ + self.debug_text(),
    {
        out.append("LeaseId(");
        push_decimal(out, self.0);
        out.append(")");
    }
}

/// The value of a lease scope.
pub enum ScopeView {
    File(Seq<Seq<char>>),
    Directory(Seq<Seq<char>>, bool),
    Block(Seq<char>),
}

/// The path a scope refers to, if it has one.
pub open spec fn scope_path(s: ScopeView) -> Option<Seq<Seq<char>>> {
    match s {
        ScopeView::File(p) => Some(p),
        ScopeView::Directory(p, _) => Some(p),
        ScopeView::Block(_) => None,
    }
}

/// Whether a scope covers a path: a file scope its own path, a recursive
/// directory scope every path under it (itself included), a non-recursive
/// one the paths whose parent it is; a block scope no path.
pub open spec fn scope_covers(s: ScopeView, p: Seq<Seq<char>>) -> bool {
    match s {
        ScopeView::File(f) => f == p,
        ScopeView::Directory(d, recursive) => if recursive {
            is_prefix(d, p)
        } else {
            parent_of(p) == Some(d)
        },
        ScopeView::Block(_) => false,
    }
}

/// Whether scope `a` is more specific than scope `b`: its path has more
/// components. A block scope is never more specific, and any path scope is
/// more specific than a block scope.
pub open spec fn more_specific(a: ScopeView, b: ScopeView) -> bool {
    match (scope_path(a), scope_path(b)) {
        (None, _) => false,
        (Some(_), None) => true,
        (Some(p), Some(q)) => p.len() > q.len(),
    }
}

/// What a lease covers - file, directory, or block
#[derive(Debug, PartialEq, Eq)]
pub enum LeaseScope {
    /// Lease on a specific file
    File(FsPath),
    /// Lease on a directory (and optionally its contents)
    Directory { path: FsPath, recursive: bool },
    /// Lease on a specific block (for FUSE filesystem)
    Block(String),
}

impl View for LeaseScope {
    type V = ScopeView;

    open spec fn view(&self) -> ScopeView {
        match self {
            LeaseScope::File(p) => ScopeView::File(p@),
            LeaseScope::Directory { path, recursive } => ScopeView::Directory(path@, *recursive),
            LeaseScope::Block(b) => ScopeView::Block(b@),
        }
    }
}

impl Clone for LeaseScope {
    fn clone(&self) -> (s: Self)
        ensures
            s@ == self@,
    {
        match self {
            LeaseScope::File(p) => LeaseScope::File(p.clone()),
            LeaseScope::Directory { path, recursive } => LeaseScope::Directory {
                path: path.clone(),
                recursive: *recursive,
            },
            LeaseScope::Block(b) => LeaseScope::Block(b.clone()),
        }
    }
}

impl LeaseScope {
    /// Check if this scope covers the given path
    pub fn covers(&self, path: &FsPath) -> (r: bool)
        ensures
            r == scope_covers(self@, path@),
    {
        match self {
            LeaseScope::File(lease_path) => lease_path.same_as(path),
            LeaseScope::Directory { path: dir_path, recursive } => {
                if *recursive {
                    path.starts_with(dir_path)
                } else {
                    match path.parent() {
                        Some(parent) => parent.same_as(dir_path),
                        None => false,
                    }
                }
            },
            LeaseScope::Block(_) => false,
        }
    }

    /// Check if this scope is more specific than another.
    /// Used for "more specific wins" resolution
    pub fn is_more_specific_than(&self, other: &LeaseScope) -> (r: bool)
        ensures
            r == more_specific(self@, other@),
    {
        let self_path = match self {
            LeaseScope::File(p) => p,
            LeaseScope::Directory { path, .. } => path,
            LeaseScope::Block(_) => return false,
        };
        let other_path = match other {
            LeaseScope::File(p) => p,
            LeaseScope::Directory { path, .. } => path,
            LeaseScope::Block(_) => return true,
        };
        self_path.component_count() > other_path.component_count()
    }

    /// Get the path this scope refers to (if applicable)
    pub fn path(&self) -> (r: Option<&FsPath>)
        ensures
            r matches Some(p) ==> scope_path(self@) == Some(p@),
            r is None ==> scope_path(self@) is None,
    {
        match self {
            LeaseScope::File(p) => Some(p),
            LeaseScope::Directory { path, .. } => Some(path),
            LeaseScope::Block(_) => None,
        }
    }
}

/// The text that Rust's `Debug` formatting gives a `std::path::Path` made
/// from the string `s` (quoted, with special characters escaped).
pub uninterp spec fn path_debug(s: Seq<char>) -> Seq<char>;

/// The text that Rust's `Debug` formatting gives the string `s` (quoted,
/// with special characters escaped).
pub uninterp spec fn str_debug(s: Seq<char>) -> Seq<char>;

/// Debug text of a path. Calls `<Path as Debug>::fmt` on `Path::new(s)`;
/// the text is taken to depend on `s` alone.
#[verifier::external_body]
fn path_debug_text(s: &str) -> (r: String)
    ensures
        r@ == path_debug(s@),
{
    format!("{:?}", std::path::Path::new(s))
}

/// Debug text of a string. Calls `<str as Debug>::fmt`; the text is taken
/// to depend on `s` alone.
#[verifier::external_body]
fn str_debug_text(s: &str) -> (r: String)
    ensures
        r@ == str_debug(s@),
{
    format!("{:?}", s)
}

/// The debug text of a scope: `File("..")`, `Directory { path: "..",
/// recursive: .. }` or `Block("..")`, paths rendered from their components.
pub open spec fn scope_key(s: ScopeView) -> Seq<char> {
    match s {
        ScopeView::File(p) => "File("@ + path_debug(render(p)) + ")"@,
        ScopeView::Directory(p, r) => "Directory { path: "@ + path_debug(render(p)) + ", recursive: "@ + (if r {
            "true"@
        } else {
            "false"@
        }) + " }"@,
        ScopeView::Block(b) => "Block("@ + str_debug(b) + ")"@,
    }
}

impl LeaseScope {
    /// The debug text of the scope, which names it in lease tables.
    pub fn debug_string(&self) -> (r: String)
        ensures
            r@ == scope_key(self@),
    {
        match self {
            LeaseScope::File(p) => {
                let mut out = String::new();
                out.append("File(");
                let text = p.to_string();
                let d = path_debug_text(text.as_str());
                out.append(d.as_str());
                out.append(")");
                out
            },
            LeaseScope::Directory { path, recursive } => {
                let mut out = String::new();
                out.append("Directory { path: ");
                let text = path.to_string();
                let d = path_debug_text(text.as_str());
                out.append(d.as_str());
                out.append(", recursive: ");
                if *recursive {
                    out.append("true");
                } else {
                    out.append("false");
                }
                out.append(" }");
                out
            },
            LeaseScope::Block(b) => {
                let mut out = String::new();
                out.append("Block(");
                let d = str_debug_text(b.as_str());
                out.append(d.as_str());
                out.append(")");
                out
            },
        }
    }
}

/// The value of a lease.
pub struct LeaseView {
    pub id: u128,
    pub scope: ScopeView,
    pub holder: Seq<char>,
    pub granted_at: HLCTimestamp,
    pub expires_at: HLCTimestamp,
    pub renewal_count: u32,
    pub parent_lease: Option<u128>,
}

/// A lease has expired at `now` once `now` has reached its expiry.
pub open spec fn expired_at(l: LeaseView, now: HLCTimestamp) -> bool {
    !now.precedes(l.expires_at)
}

/// The expiry of a lease granted at physical time `start` for `d`: the
/// millisecond `start + d` (duration truncated to 64 bits), logical 0.
pub open spec fn expiry(start: u64, d: Duration) -> HLCTimestamp {
    HLCTimestamp { physical: (start + d.millis_u64()) as u64, logical: 0 }
}

/// A leader lease granting write authority
#[derive(Debug, PartialEq, Eq)]
pub struct Lease {
    /// Unique identifier
    pub id: LeaseId,
    /// What this lease covers
    pub scope: LeaseScope,
    /// Node or consensus group holding this lease
    pub holder: String,
    /// When the lease was granted
    pub granted_at: HLCTimestamp,
    /// When the lease expires
    pub expires_at: HLCTimestamp,
    /// Number of times renewed
    pub renewal_count: u32,
    /// Parent lease ID if this is a delegated lease
    pub parent_lease: Option<LeaseId>,
}

impl View for Lease {
    type V = LeaseView;

    open spec fn view(&self) -> LeaseView {
        LeaseView {
            id: self.id.0,
            scope: self.scope@,
            holder: self.holder@,
            granted_at: self.granted_at,
            expires_at: self.expires_at,
            renewal_count: self.renewal_count,
            parent_lease: match self.parent_lease {
                Some(p) => Some(p.0),
                None => None,
            },
        }
    }
}

impl Clone for Lease {
    fn clone(&self) -> (l: Self)
        ensures
            l@ == self@,
    {
        Lease {
            id: self.id,
            scope: self.scope.clone(),
            holder: self.holder.clone(),
            granted_at: self.granted_at,
            expires_at: self.expires_at,
            renewal_count: self.renewal_count,
            parent_lease: self.parent_lease,
        }
    }
}

impl Lease {
    /// Create a new lease granted at `granted_at` for `duration`: it expires
    /// at physical time `granted_at.physical + duration` (logical 0), has not
    /// been renewed and has no parent. Its ID comes from the clock.
    pub fn new(scope: LeaseScope, holder: String, granted_at: HLCTimestamp, duration: Duration) -> (l: Self)
        requires
            granted_at.physical + duration.millis_u64() <= u64::MAX,
        ensures
            l@.scope == scope@,
            l@.holder == holder@,
            l@.granted_at == granted_at,
            l@.expires_at == expiry(granted_at.physical, duration),
            l@.renewal_count == 0,
            l@.parent_lease is None,
    {
        let duration_ms = #[verifier::truncate] (duration.as_millis() as u64);
        let expires_at = HLCTimestamp::new(granted_at.physical + duration_ms, 0);
        Lease {
            id: LeaseId::new(),
            scope,
            holder,
            granted_at,
            expires_at,
            renewal_count: 0,
            parent_lease: None,
        }
    }

    /// Check if the lease has expired at the given time
    pub fn is_expired(&self, now: HLCTimestamp) -> (r: bool)
        ensures
            r == expired_at(self@, now),
    {
        !now.is_before(&self.expires_at)
    }

    /// Time remaining until expiration: none once expired, otherwise the
    /// difference of the physical times.
    pub fn time_remaining(&self, now: HLCTimestamp) -> (r: Option<Duration>)
        ensures
            r is None <==> expired_at(self@, now),
            r matches Some(d) ==> d@ == self.expires_at.physical - now.physical,
    {
        if !now.is_before(&self.expires_at) {
            None
        } else {
            let remaining_ms = self.expires_at.physical - now.physical;
            Some(Duration::from_millis(remaining_ms))
        }
    }

    /// Renew the lease for another duration from `now`.
    pub fn renew(&mut self, now: HLCTimestamp, duration: Duration)
        requires
            now.physical + duration.millis_u64() <= u64::MAX,
            old(self).renewal_count < u32::MAX,
        ensures
            final(self)@.expires_at == expiry(now.physical, duration),
            final(self)@.renewal_count == old(self).renewal_count + 1,
            final(self)@.id == old(self)@.id,
            final(self)@.scope == old(self)@.scope,
            final(self)@.holder == old(self)@.holder,
            final(self)@.granted_at == old(self)@.granted_at,
            final(self)@.parent_lease == old(self)@.parent_lease,
    {
        let duration_ms = #[verifier::truncate] (duration.as_millis() as u64);
        self.expires_at = HLCTimestamp::new(now.physical + duration_ms, 0);
        self.renewal_count = self.renewal_count + 1;
    }

    /// Create a child lease delegated from this one, granted at `now`. The
    /// child can't outlive its parent: it runs for the parent's remaining
    /// time (none if the parent has expired).
    pub fn delegate(&self, scope: LeaseScope, holder: String, now: HLCTimestamp) -> (child: Lease)
        ensures
            child@.scope == scope@,
            child@.holder == holder@,
            child@.granted_at == now,
            child@.renewal_count == 0,
            child@.parent_lease == Some(self.id.0),
            child@.expires_at.logical == 0,
            !expired_at(self@, now) ==> child@.expires_at.physical == self.expires_at.physical,
            expired_at(self@, now) ==> child@.expires_at.physical == now.physical,
            !self.expires_at.precedes(child@.expires_at) || expired_at(child@, now),
    {
        let remaining = match self.time_remaining(now) {
            Some(d) => d,
            None => Duration::from_secs(0),
        };
        let mut child = Lease::new(scope, holder, now, remaining);
        child.parent_lease = Some(self.id);
        child
    }
}

} // verus!
