//! Athens: the consensus layer for Lis.
//!
//! Provides the RHC (Riff.CC Hierarchical Consensus) node, which combines
//! hybrid logical clocks, leases and CRDTs.

pub mod network;
pub mod node;

pub use network::{LatencySimulator, NetworkMessage};
pub use node::{AthensNode, NodeConfig};
