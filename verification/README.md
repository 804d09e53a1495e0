# lis

Lis is a distributed filesystem: files and directories kept in replicated
documents, leases that say which node may write where, hybrid logical clocks
that order events across nodes, and CRDTs for state that nodes merge.

This crate is written in Verus: the functions under `src/` carry contracts,
and Verus proves them.

- `rhc/hlc.rs` – hybrid logical clocks and their timestamps.
- `rhc/leases/` – leases over files, directories and blocks; lease state and
  the lease manager.
- `rhc/crdt/` – LWW and MV registers, OR-set, PN-counter, RGA sequence, and
  the replicated lease state.
- `athens/` – simulated consensus nodes and network latencies.
- `fuse.rs`, `fs_ops.rs`, `manifest.rs`, `object.rs` – the permission and
  attribute rules of the filesystem, and its requests on the manifest of
  inodes and paths.
- `objects.rs`, `doc.rs`, `util.rs`, `content.rs` – metadata, chunks and
  entries of the documents that hold files and directories.
- `lisfs.rs` – a filesystem whose blocks are spread over consensus groups and
  written under leases.
- `groups.rs` – the groups of a process, from the text of its status file.
- `net.rs`, `ticket.rs`, `ticket_file.rs`, `args.rs` – what the node does on
  network events and while joining a cluster, cluster share tickets and the
  file that records them, and the command line.
- `ui.rs` – what each key does on the interactive screen.
- `path.rs`, `keyed.rs`, `text.rs`, `time.rs` – paths, small maps, numbers as
  text, and spans of time.

`app/` holds the program around the library: the command line, the cluster
files, the saved manifest, and what is read from the local disk (whether a
path is a file, a directory or a link).
