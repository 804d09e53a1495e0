//! Leader leases for RHC.
//!
//! A lease gives exclusive write authority over a filesystem path (or a
//! block) for a limited time. Leases can be renewed, released, delegated to
//! a child holder (never outliving the parent), and the most specific lease
//! covering a path wins.

pub mod lease;
pub mod manager;
pub mod state;

pub use lease::{Lease, LeaseId, LeaseScope};
pub use manager::LeaseManager;
pub use state::{LeaseState, LeaseStatus};
