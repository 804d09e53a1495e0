//! Lis: a distributed filesystem with hybrid-logical-clock based leases
//! and CRDT replicated state.

pub mod athens;
pub mod keyed;
pub mod path;
pub mod rhc;
pub mod text;
pub mod time;
pub mod fuse;
pub mod util;
pub mod object;
pub mod manifest;
pub mod args;
pub mod doc;
pub mod content;
pub mod ticket;
pub mod lisfs;
pub mod objects;
pub mod fs_ops;
pub mod net;
pub mod groups;
pub mod ticket_file;
pub mod ui;
