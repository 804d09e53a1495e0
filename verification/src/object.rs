//! Filesystem objects: a path and its attributes.

use vstd::prelude::*;
use std::collections::BTreeMap;
use std::time::SystemTime;
use crate::fuse::{BLOCK_SIZE, FileKind, InodeAttributes};
use crate::path::FsPath;

verus! {

pub struct Object {
    /// Absolute path to object
    pub full_path: FsPath,
    pub attrs: InodeAttributes,
}

impl Clone for InodeAttributes {
    fn clone(&self) -> (r: Self)
        ensures
            r.inode == self.inode,
            r.open_file_handles == self.open_file_handles,
            r.size == self.size,
            r.last_accessed == self.last_accessed,
            r.last_modified == self.last_modified,
            r.last_metadata_changed == self.last_metadata_changed,
            r.kind == self.kind,
            r.mode == self.mode,
            r.hardlinks == self.hardlinks,
            r.uid == self.uid,
            r.gid == self.gid,
            r.xattrs@ == self.xattrs@,
    {
        InodeAttributes {
            inode: self.inode,
            open_file_handles: self.open_file_handles,
            size: self.size,
            last_accessed: self.last_accessed,
            last_modified: self.last_modified,
            last_metadata_changed: self.last_metadata_changed,
            kind: self.kind,
            mode: self.mode,
            hardlinks: self.hardlinks,
            uid: self.uid,
            gid: self.gid,
            xattrs: self.xattrs.clone(),
        }
    }
}

impl Clone for Object {
    fn clone(&self) -> (r: Self)
        ensures
            r.full_path@ == self.full_path@,
            r.attrs.inode == self.attrs.inode,
            r.attrs.open_file_handles == self.attrs.open_file_handles,
            r.attrs.size == self.attrs.size,
            r.attrs.kind == self.attrs.kind,
            r.attrs.mode == self.attrs.mode,
            r.attrs.hardlinks == self.attrs.hardlinks,
            r.attrs.uid == self.attrs.uid,
            r.attrs.gid == self.attrs.gid,
    {
        Object { full_path: self.full_path.clone(), attrs: self.attrs.clone() }
    }
}

/// The value of an option, or `d` when there is none.
pub open spec fn or_default<A>(o: Option<A>, d: A) -> A {
    match o {
        Some(v) => v,
        None => d,
    }
}

impl Object {
    /// A new file or directory at `full_path`, all its times `now`. What is
    /// not given defaults: a file to size 0 and mode `0o744`, a directory to
    /// one block and mode `0o755`; the owner and group to `current_uid` and
    /// `current_gid` (the process's own). A file has one link, a directory
    /// two (its self link).
    pub fn new(
        full_path: &FsPath,
        inode: u64,
        kind: FileKind,
        size: Option<u64>,
        mode: Option<u16>,
        uid: Option<u32>,
        gid: Option<u32>,
        now: SystemTime,
        current_uid: u32,
        current_gid: u32,
    ) -> (o: Object)
        requires
            kind != FileKind::Symlink,
        ensures
            o.full_path@ == full_path@,
            o.attrs.inode == inode,
            o.attrs.open_file_handles == 0,
            o.attrs.size == if kind == FileKind::File {
                or_default(size, 0)
            } else {
                BLOCK_SIZE
            },
            o.attrs.last_accessed == now,
            o.attrs.last_modified == now,
            o.attrs.last_metadata_changed == now,
            o.attrs.kind == kind,
            o.attrs.mode == or_default(mode, if kind == FileKind::File { 0o744u16 } else { 0o755u16 }),
            o.attrs.hardlinks == if kind == FileKind::File { 1u32 } else { 2u32 },
            o.attrs.uid == or_default(uid, current_uid),
            o.attrs.gid == or_default(gid, current_gid),
            o.attrs.xattrs@ == Map::<Vec<u8>, Vec<u8>>::empty(),
    {
        let attrs = match kind {
            FileKind::File => InodeAttributes {
                inode,
                open_file_handles: 0,
                size: match size {
                    Some(s) => s,
                    None => 0,
                },
                last_accessed: now,
                last_modified: now,
                last_metadata_changed: now,
                kind,
                mode: match mode {
                    Some(m) => m,
                    None => 0o744,
                },
                hardlinks: 1,
                uid: match uid {
                    Some(u) => u,
                    None => current_uid,
                },
                gid: match gid {
                    Some(g) => g,
                    None => current_gid,
                },
                xattrs: BTreeMap::new(),
            },
            _ => InodeAttributes {
                inode,
                open_file_handles: 0,
                size: BLOCK_SIZE,
                last_accessed: now,
                last_modified: now,
                last_metadata_changed: now,
                kind,
                mode: match mode {
                    Some(m) => m,
                    None => 0o755,
                },
                // Directories start with link count of 2, since they have a self link
                hardlinks: 2,
                uid: match uid {
                    Some(u) => u,
                    None => current_uid,
                },
                gid: match gid {
                    Some(g) => g,
                    None => current_gid,
                },
                xattrs: BTreeMap::new(),
            },
        };
        Object { full_path: full_path.clone(), attrs }
    }
}

} // verus!
