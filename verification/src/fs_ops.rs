//! The requests of the filesystem on its manifest: what a lookup, an open,
//! a change of attributes or a removal finds, decides and records. What
//! lies in the document store (file contents, directory listings) is read
//! and written by the caller between the steps that need it.

use vstd::prelude::*;
use std::time::SystemTime;
use crate::fuse::{
    access_allowed, check_access, check_file_handle_read, check_file_handle_write, chmod, chmod_outcome, chown,
    chown_outcome, clear_suid_sgid, create_access, create_mode, creation_gid, mkdir_mode, open_decision,
    removal_allowed, suid_sgid_cleared, time_change_allowed, AccessMode, FileKind, FsError, S_ISGID, S_ISUID, S_ISVTX,
    InodeAttributes, FILE_HANDLE_READ_BIT, FILE_HANDLE_WRITE_BIT, MAX_FILE_SIZE, MAX_NAME_LENGTH, W_OK, X_OK,
};
use crate::manifest::{handle_bits, lemma_inode_order, written, Manifest};
use crate::object::Object;
use crate::path::{joined, FsPath};
use vstd::utf8::{decode_utf8, encode_utf8, valid_utf8};
use crate::util::utf8_text;

verus! {

broadcast use {vstd::laws_cmp::group_laws_cmp, vstd::std_specs::btree::group_btree_axioms};

/// `a` and `b` agree in every attribute (the extended attributes by
/// contents).
pub open spec fn same_attrs(a: InodeAttributes, b: InodeAttributes) -> bool {
    &&& a.inode == b.inode
    &&& a.open_file_handles == b.open_file_handles
    &&& a.size == b.size
    &&& a.last_accessed == b.last_accessed
    &&& a.last_modified == b.last_modified
    &&& a.last_metadata_changed == b.last_metadata_changed
    &&& a.kind == b.kind
    &&& a.mode == b.mode
    &&& a.hardlinks == b.hardlinks
    &&& a.uid == b.uid
    &&& a.gid == b.gid
    &&& a.xattrs@ == b.xattrs@
}

impl Manifest {
    /// The attributes of the object at inode `ino`; an unknown inode is not
    /// served.
    pub fn getattr(&self, ino: u64) -> (r: Result<InodeAttributes, FsError>)
        ensures
            !self.objects@.contains_key(ino) ==> r == Err::<InodeAttributes, FsError>(FsError::NotImplemented),
            self.objects@.contains_key(ino) ==> (r matches Ok(a) && same_attrs(a, self.objects@[ino].attrs)),
    {
        proof {
            lemma_inode_order();
        }
        match self.objects.get(&ino) {
            Some(obj) => Ok(obj.attrs.clone()),
            None => Err(FsError::NotImplemented),
        }
    }
}


/// The bytes a read of `size` bytes at `offset` of `content` answers: as
/// many as there are, up to `size`.
pub open spec fn read_window(content: Seq<u8>, offset: int, size: int) -> Seq<u8> {
    let avail = if content.len() >= offset { content.len() - offset } else { 0 };
    let n = if size <= avail { size } else { avail };
    content.subrange(offset, offset + n)
}

/// The bytes of `content` a read of `size` bytes at `offset` answers.
pub fn read_slice(content: &[u8], offset: usize, size: u32) -> (r: Vec<u8>)
    requires
        offset <= content@.len(),
    ensures
        r@ == read_window(content@, offset as int, size as int),
{
    let content_size = content.len();
    let avail = content_size - offset;
    let read_size: usize = if (size as usize) <= avail { size as usize } else { avail };
    let mut r: Vec<u8> = Vec::new();
    let end = offset + read_size;
    let mut i: usize = offset;
    while i < end
        invariant
            end == offset + read_size,
            offset <= i <= end <= content@.len(),
            r@ == content@.subrange(offset as int, i as int),
        decreases end - i,
    {
        r.push(content[i]);
        i = i + 1;
        proof {
            assert(r@ =~= content@.subrange(offset as int, i as int));
        }
    }
    r
}

/// The outcome of an open of the object at inode `ino` by `req_uid` /
/// `req_gid` asking for `access` (the mask, and whether the handle reads
/// and writes): refused as the access asks, for an unknown inode, or
/// without the permission; else the handle.
pub open spec fn open_outcome(
    m: Manifest,
    ino: u64,
    access: Result<(i32, bool, bool), FsError>,
    req_uid: u32,
    req_gid: u32,
) -> Result<u64, FsError> {
    match access {
        Err(e) => Err(e),
        Ok((mask, read, write)) => if !m.objects@.contains_key(ino) {
            Err(FsError::NotFound)
        } else {
            let a = m.objects@[ino].attrs;
            if !access_allowed(a.uid, a.gid, a.mode, req_uid, req_gid, mask) {
                Err(FsError::AccessDenied)
            } else if !m.objects@.contains_key(a.inode) {
                Err(FsError::NotFound)
            } else {
                Ok(handle_bits(m.cur_fh, read, write))
            }
        },
    }
}

impl Manifest {
    /// Looks entry `name` of the directory at inode `parent` up for
    /// `req_uid` / `req_gid`: a name longer than allowed, an unknown
    /// directory, a directory the caller may not search, and a name with no
    /// object are refused.
    pub fn lookup(&self, parent: u64, name: &str, req_uid: u32, req_gid: u32) -> (r: Result<InodeAttributes, FsError>)
        requires
            self.inodes.wf(),
        ensures
            encode_utf8(name@).len() > MAX_NAME_LENGTH ==> r == Err::<InodeAttributes, FsError>(FsError::NameTooLong),
            encode_utf8(name@).len() <= MAX_NAME_LENGTH ==> {
                if !self.objects@.contains_key(parent) {
                    r == Err::<InodeAttributes, FsError>(FsError::NotFound)
                } else {
                    let p = self.objects@[parent].attrs;
                    let path = joined(self.objects@[parent].full_path@, name@);
                    if !access_allowed(p.uid, p.gid, p.mode, req_uid, req_gid, X_OK) {
                        r == Err::<InodeAttributes, FsError>(FsError::AccessDenied)
                    } else if self.inodes.map().contains_key(path) && self.objects@.contains_key(self.inodes.map()[path]) {
                        r matches Ok(a) && same_attrs(a, self.objects@[self.inodes.map()[path]].attrs)
                    } else {
                        r == Err::<InodeAttributes, FsError>(FsError::NotFound)
                    }
                }
            },
    {
        proof {
            lemma_inode_order();
        }
        if name.as_bytes().len() > MAX_NAME_LENGTH as usize {
            return Err(FsError::NameTooLong);
        }
        let parent_attrs = match self.objects.get(&parent) {
            Some(obj) => obj.attrs.clone(),
            None => {
                return Err(FsError::NotFound);
            },
        };
        if !check_access(parent_attrs.uid, parent_attrs.gid, parent_attrs.mode, req_uid, req_gid, X_OK) {
            return Err(FsError::AccessDenied);
        }
        let full_path = match self.get_full_path(parent, name) {
            Ok(p) => p,
            Err(_) => {
                return Err(FsError::NotFound);
            },
        };
        match self.obj_from_path(&full_path) {
            Some(obj) => Ok(obj.attrs.clone()),
            None => Err(FsError::NotFound),
        }
    }

    /// Opens the object at inode `ino` for `access` (the mask to check and
    /// whether the handle reads and writes): counts one more open handle
    /// and hands a new handle out.
    fn open_with(&mut self, ino: u64, access: (i32, bool, bool), req_uid: u32, req_gid: u32) -> (r: Result<u64, FsError>)
        requires
            old(self).cur_fh < FILE_HANDLE_WRITE_BIT,
            old(self).objects@.contains_key(ino) ==> old(self).objects@[ino].attrs.open_file_handles < u64::MAX,
        ensures
            r == open_outcome(*old(self), ino, Ok::<(i32, bool, bool), FsError>(access), req_uid, req_gid),
            r is Ok ==> {
                let a = old(self).objects@[ino].attrs;
                &&& written(old(self).objects@, final(self).objects@, InodeAttributes { open_file_handles: (a.open_file_handles + 1) as u64, ..a })
                &&& final(self).cur_fh == old(self).cur_fh + 1
            },
            r is Err ==> final(self).objects == old(self).objects && final(self).cur_fh == old(self).cur_fh,
            final(self).inodes == old(self).inodes,
            final(self).cur_ino == old(self).cur_ino,
    {
        proof {
            lemma_inode_order();
        }
        let (access_mask, read, write) = access;
        let mut attrs = match self.objects.get(&ino) {
            Some(obj) => obj.attrs.clone(),
            None => {
                return Err(FsError::NotFound);
            },
        };
        if !check_access(attrs.uid, attrs.gid, attrs.mode, req_uid, req_gid, access_mask) {
            return Err(FsError::AccessDenied);
        }
        attrs.open_file_handles = attrs.open_file_handles + 1;
        if self.write_inode(&attrs).is_err() {
            return Err(FsError::NotFound);
        }
        Ok(self.next_file_handle(read, write))
    }

    /// Opens the file at inode `ino` for `req_uid` / `req_gid` with access
    /// mode `mode` (`truncate` and `flags` as the request gives them); see
    /// `open_access` for what is asked.
    pub fn open(&mut self, ino: u64, mode: AccessMode, truncate: bool, flags: i32, req_uid: u32, req_gid: u32) -> (r: Result<u64, FsError>)
        requires
            old(self).cur_fh < FILE_HANDLE_WRITE_BIT,
            old(self).objects@.contains_key(ino) ==> old(self).objects@[ino].attrs.open_file_handles < u64::MAX,
        ensures
            r == open_outcome(*old(self), ino, open_decision(mode, truncate, flags), req_uid, req_gid),
            r is Ok ==> {
                let a = old(self).objects@[ino].attrs;
                &&& written(old(self).objects@, final(self).objects@, InodeAttributes { open_file_handles: (a.open_file_handles + 1) as u64, ..a })
                &&& final(self).cur_fh == old(self).cur_fh + 1
            },
            r is Err ==> final(self).objects == old(self).objects && final(self).cur_fh == old(self).cur_fh,
            final(self).inodes == old(self).inodes,
            final(self).cur_ino == old(self).cur_ino,
    {
        match crate::fuse::open_access(mode, truncate, flags) {
            Err(e) => Err(e),
            Ok(access) => self.open_with(ino, access, req_uid, req_gid),
        }
    }

    /// Opens the directory at inode `ino`: as a file open, but never to
    /// execute.
    pub fn opendir(&mut self, ino: u64, mode: AccessMode, truncate: bool, req_uid: u32, req_gid: u32) -> (r: Result<u64, FsError>)
        requires
            old(self).cur_fh < FILE_HANDLE_WRITE_BIT,
            old(self).objects@.contains_key(ino) ==> old(self).objects@[ino].attrs.open_file_handles < u64::MAX,
        ensures
            r == open_outcome(*old(self), ino, open_decision(mode, truncate, 0), req_uid, req_gid),
            r is Ok ==> {
                let a = old(self).objects@[ino].attrs;
                &&& written(old(self).objects@, final(self).objects@, InodeAttributes { open_file_handles: (a.open_file_handles + 1) as u64, ..a })
                &&& final(self).cur_fh == old(self).cur_fh + 1
            },
            r is Err ==> final(self).objects == old(self).objects && final(self).cur_fh == old(self).cur_fh,
            final(self).inodes == old(self).inodes,
            final(self).cur_ino == old(self).cur_ino,
    {
        match crate::fuse::opendir_access(mode, truncate) {
            Err(e) => Err(e),
            Ok(access) => self.open_with(ino, access, req_uid, req_gid),
        }
    }

    /// Closes a handle of the object at inode `ino`: one open handle fewer.
    /// An unknown inode is ignored.
    pub fn release(&mut self, ino: u64) -> (r: Result<(), FsError>)
        requires
            old(self).objects@.contains_key(ino) ==> old(self).objects@[ino].attrs.open_file_handles > 0,
        ensures
            !old(self).objects@.contains_key(ino) ==> r is Ok && final(self).objects == old(self).objects,
            old(self).objects@.contains_key(ino) ==> {
                let a = old(self).objects@[ino].attrs;
                if old(self).objects@.contains_key(a.inode) {
                    &&& r is Ok
                    &&& written(old(self).objects@, final(self).objects@, InodeAttributes { open_file_handles: (a.open_file_handles - 1) as u64, ..a })
                } else {
                    &&& r == Err::<(), FsError>(FsError::NotFound)
                    &&& final(self).objects == old(self).objects
                }
            },
            final(self).inodes == old(self).inodes,
            final(self).cur_ino == old(self).cur_ino,
            final(self).cur_fh == old(self).cur_fh,
    {
        proof {
            lemma_inode_order();
        }
        let mut attrs = match self.objects.get(&ino) {
            Some(obj) => obj.attrs.clone(),
            None => {
                return Ok(());
            },
        };
        attrs.open_file_handles = attrs.open_file_handles - 1;
        if self.write_inode(&attrs).is_err() {
            return Err(FsError::NotFound);
        }
        Ok(())
    }

    /// The path a read with handle `fh` of the object at inode `ino` reads:
    /// refused for a handle not opened for reading and an unknown inode.
    pub fn read_target(&self, ino: u64, fh: u64) -> (r: Result<FsPath, FsError>)
        ensures
            fh & FILE_HANDLE_READ_BIT == 0 ==> r == Err::<FsPath, FsError>(FsError::AccessDenied),
            fh & FILE_HANDLE_READ_BIT != 0 && !self.objects@.contains_key(ino) ==> r == Err::<FsPath, FsError>(FsError::NotFound),
            fh & FILE_HANDLE_READ_BIT != 0 && self.objects@.contains_key(ino) ==> (r matches Ok(p) && p@ == self.objects@[ino].full_path@),
    {
        proof {
            lemma_inode_order();
        }
        if !check_file_handle_read(fh) {
            return Err(FsError::AccessDenied);
        }
        match self.objects.get(&ino) {
            Some(obj) => Ok(obj.full_path.clone()),
            None => Err(FsError::NotFound),
        }
    }

    /// The path a write with handle `fh` of the object at inode `ino`
    /// writes: refused for a handle not opened for writing and an unknown
    /// inode.
    pub fn write_target(&self, ino: u64, fh: u64) -> (r: Result<FsPath, FsError>)
        ensures
            fh & FILE_HANDLE_WRITE_BIT == 0 ==> r == Err::<FsPath, FsError>(FsError::AccessDenied),
            fh & FILE_HANDLE_WRITE_BIT != 0 && !self.objects@.contains_key(ino) ==> r == Err::<FsPath, FsError>(FsError::NotFound),
            fh & FILE_HANDLE_WRITE_BIT != 0 && self.objects@.contains_key(ino) ==> (r matches Ok(p) && p@ == self.objects@[ino].full_path@),
    {
        proof {
            lemma_inode_order();
        }
        if !check_file_handle_write(fh) {
            return Err(FsError::AccessDenied);
        }
        match self.objects.get(&ino) {
            Some(obj) => Ok(obj.full_path.clone()),
            None => Err(FsError::NotFound),
        }
    }

    /// Records a write of `len` bytes at `offset` of the object at inode
    /// `ino`, at time `now`: the file grows to cover it, its times are
    /// `now`, and it loses its set-id bits. Answers the bytes written, as
    /// 32 bits.
    pub fn record_write(&mut self, ino: u64, offset: u64, len: u64, now: SystemTime) -> (r: Result<u32, FsError>)
        requires
            offset + len <= u64::MAX,
        ensures
            !old(self).objects@.contains_key(ino) ==> r == Err::<u32, FsError>(FsError::NotFound) && final(self).objects == old(self).objects,
            old(self).objects@.contains_key(ino) ==> {
                let a = old(self).objects@[ino].attrs;
                if old(self).objects@.contains_key(a.inode) {
                    &&& r == Ok::<u32, FsError>(#[verifier::truncate] (len as u32))
                    &&& written(old(self).objects@, final(self).objects@, InodeAttributes {
                        size: if offset + len > a.size { (offset + len) as u64 } else { a.size },
                        mode: suid_sgid_cleared(a.mode),
                        last_modified: now,
                        last_metadata_changed: now,
                        ..a
                    })
                } else {
                    &&& r == Err::<u32, FsError>(FsError::NotFound)
                    &&& final(self).objects == old(self).objects
                }
            },
            final(self).inodes == old(self).inodes,
            final(self).cur_ino == old(self).cur_ino,
            final(self).cur_fh == old(self).cur_fh,
    {
        proof {
            lemma_inode_order();
        }
        let mut attrs = match self.objects.get(&ino) {
            Some(obj) => obj.attrs.clone(),
            None => {
                return Err(FsError::NotFound);
            },
        };
        attrs.last_metadata_changed = now;
        attrs.last_modified = now;
        if len + offset > attrs.size {
            attrs.size = len + offset;
        }
        clear_suid_sgid(&mut attrs);
        if self.write_inode(&attrs).is_err() {
            return Err(FsError::NotFound);
        }
        Ok(#[verifier::truncate] (len as u32))
    }
}


/// A time an attribute is set to: a given time, or the time of the request.
#[derive(Debug, Clone, Copy)]
pub enum TimeOrNow {
    SpecificTime(SystemTime),
    Now,
}

/// The time `t` stands for at `now`.
pub open spec fn time_value(t: TimeOrNow, now: SystemTime) -> SystemTime {
    match t {
        TimeOrNow::SpecificTime(x) => x,
        TimeOrNow::Now => now,
    }
}

/// Why setting a time of an object with attributes `a` to `t` is refused
/// for `req_uid` / `req_gid`, if it is.
pub open spec fn time_refusal(a: InodeAttributes, req_uid: u32, req_gid: u32, t: TimeOrNow) -> Option<FsError> {
    if a.uid != req_uid && req_uid != 0 && !(t is Now) {
        Some(FsError::NotPermitted)
    } else if a.uid != req_uid && !access_allowed(a.uid, a.gid, a.mode, req_uid, req_gid, W_OK) {
        Some(FsError::AccessDenied)
    } else {
        None
    }
}

/// Why truncating the object at inode `ino` to `len` bytes for `uid` /
/// `gid` is refused, if it is.
pub open spec fn truncate_refusal(objects: Map<u64, Object>, ino: u64, len: u64, uid: u32, gid: u32) -> Option<FsError> {
    if len > MAX_FILE_SIZE {
        Some(FsError::FileTooBig)
    } else if !objects.contains_key(ino) {
        Some(FsError::NotFound)
    } else {
        let a = objects[ino].attrs;
        if !access_allowed(a.uid, a.gid, a.mode, uid, gid, W_OK) {
            Some(FsError::AccessDenied)
        } else if !objects.contains_key(a.inode) {
            Some(FsError::NotFound)
        } else {
            None
        }
    }
}

/// Why the size change of a change of attributes is refused, if it is: a
/// handle given must have been opened for writing, and then the truncation
/// is made as root; without one, as the caller.
pub open spec fn size_refusal(
    objects: Map<u64, Object>,
    ino: u64,
    req_uid: u32,
    req_gid: u32,
    size: Option<u64>,
    fh: Option<u64>,
) -> Option<FsError> {
    match size {
        None => None,
        Some(len) => match fh {
            Some(h) => if h & FILE_HANDLE_WRITE_BIT != 0 {
                truncate_refusal(objects, ino, len, 0, 0)
            } else {
                Some(FsError::AccessDenied)
            },
            None => truncate_refusal(objects, ino, len, req_uid, req_gid),
        },
    }
}

/// Why setting time `t`, if any, is refused, if it is; `missing` says the
/// attributes cannot be written back.
pub open spec fn one_time_refusal(a: InodeAttributes, missing: bool, req_uid: u32, req_gid: u32, t: Option<TimeOrNow>) -> Option<FsError> {
    match t {
        None => None,
        Some(t) => match time_refusal(a, req_uid, req_gid, t) {
            Some(e) => Some(e),
            None => if missing {
                Some(FsError::NotFound)
            } else {
                None
            },
        },
    }
}

/// Why the time changes of a change of attributes, and the final write of
/// the attributes, are refused, if they are.
pub open spec fn times_refusal(
    a: InodeAttributes,
    missing: bool,
    req_uid: u32,
    req_gid: u32,
    atime: Option<TimeOrNow>,
    mtime: Option<TimeOrNow>,
) -> Option<FsError> {
    if one_time_refusal(a, missing, req_uid, req_gid, atime) is Some {
        one_time_refusal(a, missing, req_uid, req_gid, atime)
    } else if one_time_refusal(a, missing, req_uid, req_gid, mtime) is Some {
        one_time_refusal(a, missing, req_uid, req_gid, mtime)
    } else if missing {
        Some(FsError::NotFound)
    } else {
        None
    }
}

/// The attributes `a` with the times set as asked at `now`.
pub open spec fn with_times(a: InodeAttributes, atime: Option<TimeOrNow>, mtime: Option<TimeOrNow>, now: SystemTime) -> InodeAttributes {
    InodeAttributes {
        last_accessed: match atime {
            Some(t) => time_value(t, now),
            None => a.last_accessed,
        },
        last_modified: match mtime {
            Some(t) => time_value(t, now),
            None => a.last_modified,
        },
        last_metadata_changed: if atime is Some || mtime is Some {
            now
        } else {
            a.last_metadata_changed
        },
        ..a
    }
}

/// `n` is `a` with mode, owner and group as given and the metadata change
/// at `now`.
pub open spec fn with_owner_fields(n: InodeAttributes, a: InodeAttributes, mode: u16, uid: u32, gid: u32, now: SystemTime) -> bool {
    same_attrs(n, InodeAttributes { mode, uid, gid, last_metadata_changed: now, ..a })
}

impl Manifest {
    /// Changes the attributes of the object at inode `ino` for `req_uid` /
    /// `req_gid` (member of `groups`), at time `now`. A new mode is set
    /// alone (see `chmod`); else a new owner or group (see `chown`); else
    /// the size (see `truncate`), then the access and modification times.
    /// The attributes written back last are those read before the size
    /// changed, with the new times. Answers the attributes written.
    pub fn setattr(
        &mut self,
        ino: u64,
        req_uid: u32,
        req_gid: u32,
        groups: &Vec<u32>,
        mode: Option<u32>,
        uid: Option<u32>,
        gid: Option<u32>,
        size: Option<u64>,
        atime: Option<TimeOrNow>,
        mtime: Option<TimeOrNow>,
        fh: Option<u64>,
        now: SystemTime,
    ) -> (r: Result<InodeAttributes, FsError>)
        ensures
            final(self).objects@.dom() == old(self).objects@.dom(),
            final(self).inodes == old(self).inodes,
            final(self).cur_ino == old(self).cur_ino,
            final(self).cur_fh == old(self).cur_fh,
            !old(self).objects@.contains_key(ino) ==> r == Err::<InodeAttributes, FsError>(FsError::NotFound),
            old(self).objects@.contains_key(ino) ==> ({
                let objs = old(self).objects@;
                let a = objs[ino].attrs;
                let missing = !objs.contains_key(a.inode);
                if mode is Some {
                    match chmod_outcome(a, req_uid, req_gid, groups@, mode.unwrap()) {
                        Err(e) => r == Err::<InodeAttributes, FsError>(e),
                        Ok(md) => if missing {
                            r == Err::<InodeAttributes, FsError>(FsError::NotFound)
                        } else {
                            r matches Ok(n) && with_owner_fields(n, a, md, a.uid, a.gid, now) && written(objs, final(self).objects@, n)
                        },
                    }
                } else if uid is Some || gid is Some {
                    match chown_outcome(a, req_uid, groups@, uid, gid) {
                        Err(e) => r == Err::<InodeAttributes, FsError>(e),
                        Ok((md, u, g)) => if missing {
                            r == Err::<InodeAttributes, FsError>(FsError::NotFound)
                        } else {
                            r matches Ok(n) && with_owner_fields(n, a, md, u, g, now) && written(objs, final(self).objects@, n)
                        },
                    }
                } else if size_refusal(objs, ino, req_uid, req_gid, size, fh) is Some {
                    r == Err::<InodeAttributes, FsError>(size_refusal(objs, ino, req_uid, req_gid, size, fh).unwrap())
                } else if times_refusal(a, missing, req_uid, req_gid, atime, mtime) is Some {
                    r == Err::<InodeAttributes, FsError>(times_refusal(a, missing, req_uid, req_gid, atime, mtime).unwrap())
                } else {
                    r matches Ok(n) && same_attrs(n, with_times(a, atime, mtime, now))
                        && written(objs, final(self).objects@, n)
                }
            }),
    {
        proof {
            lemma_inode_order();
        }
        let attrs = match self.objects.get(&ino) {
            Some(obj) => obj.attrs.clone(),
            None => {
                return Err(FsError::NotFound);
            },
        };
        let ghost objs = self.objects@;
        if let Some(mode) = mode {
            return self.setattr_mode(attrs, req_uid, req_gid, groups, mode, now);
        }
        if uid.is_some() || gid.is_some() {
            return self.setattr_owner(attrs, req_uid, groups, uid, gid, now);
        }
        if let Err(e) = self.setattr_size(ino, req_uid, req_gid, size, fh, now) {
            return Err(e);
        }
        let ghost mid = self.objects@;
        let r = self.setattr_times(attrs, req_uid, req_gid, atime, mtime, now);
        proof {
            if r is Ok {
                lemma_written_twice(objs, mid, self.objects@, objs[ino].attrs.inode, r->Ok_0);
            }
        }
        r
    }

    /// The mode change of a change of attributes.
    fn setattr_mode(&mut self, attrs: InodeAttributes, req_uid: u32, req_gid: u32, groups: &Vec<u32>, mode: u32, now: SystemTime) -> (r: Result<
        InodeAttributes,
        FsError,
    >)
        ensures
            final(self).objects@.dom() == old(self).objects@.dom(),
            final(self).inodes == old(self).inodes,
            final(self).cur_ino == old(self).cur_ino,
            final(self).cur_fh == old(self).cur_fh,
            match chmod_outcome(attrs, req_uid, req_gid, groups@, mode) {
                Err(e) => r == Err::<InodeAttributes, FsError>(e),
                Ok(md) => if !old(self).objects@.contains_key(attrs.inode) {
                    r == Err::<InodeAttributes, FsError>(FsError::NotFound)
                } else {
                    r matches Ok(n) && with_owner_fields(n, attrs, md, attrs.uid, attrs.gid, now)
                        && written(old(self).objects@, final(self).objects@, n)
                },
            },
    {
        let mut attrs = attrs;
        if let Err(e) = chmod(&mut attrs, req_uid, req_gid, groups, mode, now) {
            return Err(e);
        }
        if self.write_inode(&attrs).is_err() {
            return Err(FsError::NotFound);
        }
        Ok(attrs)
    }

    /// The owner change of a change of attributes.
    fn setattr_owner(&mut self, attrs: InodeAttributes, req_uid: u32, groups: &Vec<u32>, uid: Option<u32>, gid: Option<u32>, now: SystemTime) -> (r: Result<
        InodeAttributes,
        FsError,
    >)
        ensures
            final(self).objects@.dom() == old(self).objects@.dom(),
            final(self).inodes == old(self).inodes,
            final(self).cur_ino == old(self).cur_ino,
            final(self).cur_fh == old(self).cur_fh,
            match chown_outcome(attrs, req_uid, groups@, uid, gid) {
                Err(e) => r == Err::<InodeAttributes, FsError>(e),
                Ok((md, u, g)) => if !old(self).objects@.contains_key(attrs.inode) {
                    r == Err::<InodeAttributes, FsError>(FsError::NotFound)
                } else {
                    r matches Ok(n) && with_owner_fields(n, attrs, md, u, g, now) && written(old(self).objects@, final(self).objects@, n)
                },
            },
    {
        let mut attrs = attrs;
        if let Err(e) = chown(&mut attrs, req_uid, groups, uid, gid, now) {
            return Err(e);
        }
        if self.write_inode(&attrs).is_err() {
            return Err(FsError::NotFound);
        }
        Ok(attrs)
    }

    /// The size change of a change of attributes.
    fn setattr_size(&mut self, ino: u64, req_uid: u32, req_gid: u32, size: Option<u64>, fh: Option<u64>, now: SystemTime) -> (r: Result<(), FsError>)
        ensures
            final(self).objects@.dom() == old(self).objects@.dom(),
            final(self).inodes == old(self).inodes,
            final(self).cur_ino == old(self).cur_ino,
            final(self).cur_fh == old(self).cur_fh,
            r is Err <==> size_refusal(old(self).objects@, ino, req_uid, req_gid, size, fh) is Some,
            r matches Err(e) ==> size_refusal(old(self).objects@, ino, req_uid, req_gid, size, fh) == Some(e),
            r is Ok && size is None ==> final(self).objects == old(self).objects,
            r is Ok ==> forall|i: u64| #[trigger] old(self).objects@.contains_key(i) && i != old(self).objects@[ino].attrs.inode
                ==> final(self).objects@[i] == old(self).objects@[i],
            r is Ok && old(self).objects@.contains_key(old(self).objects@[ino].attrs.inode) ==> final(self).objects@[old(
                self,
            ).objects@[ino].attrs.inode].full_path@ == old(self).objects@[old(self).objects@[ino].attrs.inode].full_path@,
    {
        if let Some(size) = size {
            if let Some(file_handle) = fh {
                // A handle opened for writing may always truncate, even if
                // the file was made read-only since.
                if check_file_handle_write(file_handle) {
                    match self.truncate(ino, size, 0, 0, now) {
                        Ok(_) => Ok(()),
                        Err(e) => Err(e),
                    }
                } else {
                    Err(FsError::AccessDenied)
                }
            } else {
                match self.truncate(ino, size, req_uid, req_gid, now) {
                    Ok(_) => Ok(()),
                    Err(e) => Err(e),
                }
            }
        } else {
            Ok(())
        }
    }

    /// The time changes of a change of attributes, and the final write of
    /// the attributes.
    fn setattr_times(
        &mut self,
        attrs: InodeAttributes,
        req_uid: u32,
        req_gid: u32,
        atime: Option<TimeOrNow>,
        mtime: Option<TimeOrNow>,
        now: SystemTime,
    ) -> (r: Result<InodeAttributes, FsError>)
        ensures
            final(self).objects@.dom() == old(self).objects@.dom(),
            final(self).inodes == old(self).inodes,
            final(self).cur_ino == old(self).cur_ino,
            final(self).cur_fh == old(self).cur_fh,
            ({
                let missing = !old(self).objects@.contains_key(attrs.inode);
                if times_refusal(attrs, missing, req_uid, req_gid, atime, mtime) is Some {
                    r == Err::<InodeAttributes, FsError>(times_refusal(attrs, missing, req_uid, req_gid, atime, mtime).unwrap())
                } else {
                    r matches Ok(n) && same_attrs(n, with_times(attrs, atime, mtime, now)) && written(old(self).objects@, final(self).objects@, n)
                }
            }),
    {
        let mut attrs = attrs;
        let ghost a0 = attrs;
        if let Some(atime) = atime {
            let to_now = match atime {
                TimeOrNow::Now => true,
                TimeOrNow::SpecificTime(_) => false,
            };
            if let Err(e) = time_change_allowed(&attrs, req_uid, req_gid, to_now) {
                return Err(e);
            }
            attrs.last_accessed = match atime {
                TimeOrNow::SpecificTime(time) => time,
                TimeOrNow::Now => now,
            };
            attrs.last_metadata_changed = now;
            if self.write_inode(&attrs).is_err() {
                return Err(FsError::NotFound);
            }
        }
        let ghost objs1 = self.objects@;
        if let Some(mtime) = mtime {
            let to_now = match mtime {
                TimeOrNow::Now => true,
                TimeOrNow::SpecificTime(_) => false,
            };
            if let Err(e) = time_change_allowed(&attrs, req_uid, req_gid, to_now) {
                return Err(e);
            }
            attrs.last_modified = match mtime {
                TimeOrNow::SpecificTime(time) => time,
                TimeOrNow::Now => now,
            };
            attrs.last_metadata_changed = now;
            if self.write_inode(&attrs).is_err() {
                return Err(FsError::NotFound);
            }
        }
        // save new attributes
        match self.write_inode(&attrs) {
            Ok(_) => Ok(attrs),
            Err(_) => Err(FsError::NotFound),
        }
    }
}

/// Two writes of the attributes of one inode: the first is overwritten.
proof fn lemma_written_twice(x0: Map<u64, Object>, x1: Map<u64, Object>, x2: Map<u64, Object>, ino: u64, n: InodeAttributes)
    requires
        x1.dom() == x0.dom(),
        forall|i: u64| #[trigger] x0.contains_key(i) && i != ino ==> x1[i] == x0[i],
        x0.contains_key(ino) ==> x1[ino].full_path@ == x0[ino].full_path@,
        written(x1, x2, n),
        n.inode == ino,
    ensures
        written(x0, x2, n),
{
}


/// Whether `req_uid` / `req_gid` may remove an entry owned by `entry_uid`
/// from a directory with attributes `p` (see `removal_allowed`).
pub open spec fn removal_refusal(p: InodeAttributes, entry_uid: u32, req_uid: u32, req_gid: u32) -> Option<FsError> {
    if !access_allowed(p.uid, p.gid, p.mode, req_uid, req_gid, W_OK) {
        Some(FsError::AccessDenied)
    } else if p.mode & S_ISVTX != 0 && req_uid != 0 && req_uid != p.uid && req_uid != entry_uid {
        Some(FsError::AccessDenied)
    } else {
        None
    }
}

/// The effect of removing an entry: `stamped` is written over the
/// directory's attributes, then `dropped` over the entry's, and the entry
/// (its object and its path) is forgotten once it has neither links nor
/// open handles.
pub open spec fn entry_removed(
    objects: Map<u64, Object>,
    inodes: Map<Seq<Seq<char>>, u64>,
    final_objects: Map<u64, Object>,
    final_inodes: Map<Seq<Seq<char>>, u64>,
    stamped: InodeAttributes,
    dropped: InodeAttributes,
) -> bool {
    exists|mid: Map<u64, Object>, mid2: Map<u64, Object>|
        #![trigger written(objects, mid, stamped), written(mid, mid2, dropped)]
        {
            &&& written(objects, mid, stamped)
            &&& written(mid, mid2, dropped)
            &&& if dropped.hardlinks == 0 && dropped.open_file_handles == 0 {
                &&& final_objects == mid2.remove(dropped.inode)
                &&& final_inodes == inodes.remove(mid2[dropped.inode].full_path@)
            } else {
                &&& final_objects == mid2
                &&& final_inodes == inodes
            }
        }
}

/// A new entry to make: its path, and the mode, owner and group it gets.
#[derive(Debug)]
pub struct NewEntry {
    pub path: FsPath,
    pub mode: u16,
    pub uid: u32,
    pub gid: u32,
}

/// An entry of a directory listing: inode, offset of the next entry, kind
/// and name.
#[derive(Debug)]
pub struct DirEntry {
    pub ino: u64,
    pub offset: i64,
    pub kind: FileKind,
    pub name: String,
}

/// The value of a listing entry.
pub struct EntryView {
    pub ino: u64,
    pub offset: i64,
    pub kind: FileKind,
    pub name: Seq<char>,
}

impl View for DirEntry {
    type V = EntryView;

    open spec fn view(&self) -> EntryView {
        EntryView { ino: self.ino, offset: self.offset, kind: self.kind, name: self.name@ }
    }
}

impl Manifest {
    /// What removing entry `name` of the directory at inode `parent` for
    /// `req_uid` / `req_gid` removes: its path and attributes. An unknown
    /// directory or entry is refused, and so is a removal the caller may
    /// not make (see `removal_allowed`).
    pub fn unlink_prepare(&self, parent: u64, name: &str, req_uid: u32, req_gid: u32) -> (r: Result<(FsPath, InodeAttributes), FsError>)
        requires
            self.inodes.wf(),
        ensures
            !self.objects@.contains_key(parent) ==> r == Err::<(FsPath, InodeAttributes), FsError>(FsError::NotFound),
            self.objects@.contains_key(parent) ==> {
                let path = joined(self.objects@[parent].full_path@, name@);
                let found = self.inodes.map().contains_key(path) && self.objects@.contains_key(self.inodes.map()[path]);
                if !found {
                    r == Err::<(FsPath, InodeAttributes), FsError>(FsError::NotFound)
                } else {
                    let a = self.objects@[self.inodes.map()[path]].attrs;
                    match removal_refusal(self.objects@[parent].attrs, a.uid, req_uid, req_gid) {
                        Some(e) => r == Err::<(FsPath, InodeAttributes), FsError>(e),
                        None => r matches Ok((p, n)) && p@ == path && same_attrs(n, a),
                    }
                }
            },
    {
        proof {
            lemma_inode_order();
        }
        let parent_attrs = match self.objects.get(&parent) {
            Some(obj) => obj.attrs.clone(),
            None => {
                return Err(FsError::NotFound);
            },
        };
        let full_path = match self.get_full_path(parent, name) {
            Ok(p) => p,
            Err(_) => {
                return Err(FsError::NotFound);
            },
        };
        let attrs = match self.obj_from_path(&full_path) {
            Some(obj) => obj.attrs.clone(),
            None => {
                return Err(FsError::NotFound);
            },
        };
        if let Err(e) = removal_allowed(&parent_attrs, attrs.uid, req_uid, req_gid) {
            return Err(e);
        }
        Ok((full_path, attrs))
    }

    /// Stamps a directory whose entries changed at `now`, from the
    /// attributes it had.
    pub fn touch_dir(&mut self, parent_attrs: &InodeAttributes, now: SystemTime) -> (r: Result<(), FsError>)
        ensures
            !old(self).objects@.contains_key(parent_attrs.inode) ==> r == Err::<(), FsError>(FsError::NotFound)
                && final(self).objects == old(self).objects,
            old(self).objects@.contains_key(parent_attrs.inode) ==> r is Ok && written(
                old(self).objects@,
                final(self).objects@,
                InodeAttributes { last_modified: now, last_metadata_changed: now, ..*parent_attrs },
            ),
            final(self).inodes == old(self).inodes,
            final(self).cur_ino == old(self).cur_ino,
            final(self).cur_fh == old(self).cur_fh,
    {
        let mut attrs = parent_attrs.clone();
        attrs.last_metadata_changed = now;
        attrs.last_modified = now;
        if self.write_inode(&attrs).is_err() {
            return Err(FsError::NotFound);
        }
        Ok(())
    }

    /// Records the removal of an entry with attributes `attrs` from the
    /// directory at inode `parent`, at time `now`: the directory is stamped,
    /// the entry loses a link, and is forgotten once nothing refers to it.
    pub fn unlink_commit(&mut self, parent: u64, attrs: &InodeAttributes, now: SystemTime) -> (r: Result<(), FsError>)
        requires
            old(self).inodes.wf(),
            attrs.hardlinks > 0,
        ensures
            final(self).inodes.wf(),
            !old(self).objects@.contains_key(parent) ==> r == Err::<(), FsError>(FsError::NotFound)
                && final(self).objects == old(self).objects && final(self).inodes == old(self).inodes,
            old(self).objects@.contains_key(parent) ==> {
                let o = old(self).objects@;
                let pa = o[parent].attrs;
                let stamped = InodeAttributes { last_modified: now, last_metadata_changed: now, ..pa };
                let dropped = InodeAttributes { hardlinks: (attrs.hardlinks - 1) as u32, last_metadata_changed: now, ..*attrs };
                if !o.contains_key(pa.inode) {
                    r == Err::<(), FsError>(FsError::NotFound) && final(self).objects == old(self).objects
                        && final(self).inodes == old(self).inodes
                } else if !o.contains_key(attrs.inode) {
                    r == Err::<(), FsError>(FsError::NotFound) && written(o, final(self).objects@, stamped)
                        && final(self).inodes == old(self).inodes
                } else {
                    r is Ok && entry_removed(o, old(self).inodes.map(), final(self).objects@, final(self).inodes.map(), stamped, dropped)
                }
            },
            final(self).cur_ino == old(self).cur_ino,
            final(self).cur_fh == old(self).cur_fh,
    {
        proof {
            lemma_inode_order();
        }
        let parent_attrs = match self.objects.get(&parent) {
            Some(obj) => obj.attrs.clone(),
            None => {
                return Err(FsError::NotFound);
            },
        };
        if let Err(e) = self.touch_dir(&parent_attrs, now) {
            return Err(e);
        }
        let ghost mid = self.objects@;
        let mut dropped = attrs.clone();
        dropped.hardlinks = dropped.hardlinks - 1;
        dropped.last_metadata_changed = now;
        if self.write_inode(&dropped).is_err() {
            return Err(FsError::NotFound);
        }
        let ghost mid2 = self.objects@;
        if self.gc_inode(&dropped).is_err() {
            return Err(FsError::NotFound);
        }
        proof {
            let o = old(self).objects@;
            let stamped = InodeAttributes { last_modified: now, last_metadata_changed: now, ..o[parent].attrs };
            let d = InodeAttributes { hardlinks: (attrs.hardlinks - 1) as u32, last_metadata_changed: now, ..*attrs };
            assert(written(o, mid, stamped));
            assert(written(mid, mid2, d));
        }
        Ok(())
    }

    /// The parent directory of a new entry: its attributes and path; an
    /// unknown inode is refused.
    pub fn new_entry_parent(&self, parent: u64) -> (r: Result<(InodeAttributes, FsPath), FsError>)
        ensures
            !self.objects@.contains_key(parent) ==> r == Err::<(InodeAttributes, FsPath), FsError>(FsError::NotFound),
            self.objects@.contains_key(parent) ==> (r matches Ok((a, p)) && same_attrs(a, self.objects@[parent].attrs)
                && p@ == self.objects@[parent].full_path@),
    {
        proof {
            lemma_inode_order();
        }
        match self.objects.get(&parent) {
            Some(obj) => Ok((obj.attrs.clone(), obj.full_path.clone())),
            None => Err(FsError::NotFound),
        }
    }
}

/// A new directory `name` in a directory with attributes `parent_attrs` at
/// `parent_path`, made by `req_uid` / `req_gid` with `mode`: refused without
/// write access to the directory; see `mkdir_mode` and `creation_gid` for
/// what it gets.
pub fn mkdir_entry(
    parent_attrs: &InodeAttributes,
    parent_path: &FsPath,
    name: &str,
    mode: u32,
    req_uid: u32,
    req_gid: u32,
) -> (r: Result<NewEntry, FsError>)
    ensures
        !access_allowed(parent_attrs.uid, parent_attrs.gid, parent_attrs.mode, req_uid, req_gid, W_OK)
            ==> r == Err::<NewEntry, FsError>(FsError::AccessDenied),
        access_allowed(parent_attrs.uid, parent_attrs.gid, parent_attrs.mode, req_uid, req_gid, W_OK) ==> (r matches Ok(e) && {
            let m = if req_uid != 0 { mode & !((S_ISUID | S_ISGID) as u32) } else { mode };
            &&& e.path@ == joined(parent_path@, name@)
            &&& e.mode == (if parent_attrs.mode & S_ISGID != 0 { m | (S_ISGID as u32) } else { m }) as u16
            &&& e.uid == req_uid
            &&& e.gid == if parent_attrs.mode & S_ISGID != 0 { parent_attrs.gid } else { req_gid }
        }),
{
    let full_path = parent_path.join(name);
    if !check_access(parent_attrs.uid, parent_attrs.gid, parent_attrs.mode, req_uid, req_gid, W_OK) {
        return Err(FsError::AccessDenied);
    }
    let mode = mkdir_mode(mode, req_uid, parent_attrs.mode);
    let gid = creation_gid(parent_attrs, req_gid);
    Ok(NewEntry { path: full_path, mode: mode as u16, uid: req_uid, gid })
}

/// A new file `name` in a directory with attributes `parent_attrs` at
/// `parent_path`, made by `req_uid` / `req_gid` with `mode` and access mode
/// `access`: refused for an invalid access mode and without write access to
/// the directory. Answers the entry and whether its handle reads and
/// writes.
pub fn create_entry(
    parent_attrs: &InodeAttributes,
    parent_path: &FsPath,
    name: &str,
    mode: u32,
    access: AccessMode,
    req_uid: u32,
    req_gid: u32,
) -> (r: Result<(NewEntry, bool, bool), FsError>)
    ensures
        access == AccessMode::Invalid ==> r == Err::<(NewEntry, bool, bool), FsError>(FsError::InvalidArgument),
        access != AccessMode::Invalid && !access_allowed(parent_attrs.uid, parent_attrs.gid, parent_attrs.mode, req_uid, req_gid, W_OK)
            ==> r == Err::<(NewEntry, bool, bool), FsError>(FsError::AccessDenied),
        access != AccessMode::Invalid && access_allowed(parent_attrs.uid, parent_attrs.gid, parent_attrs.mode, req_uid, req_gid, W_OK)
            ==> (r matches Ok((e, read, write)) && {
            &&& read == (access == AccessMode::ReadOnly || access == AccessMode::ReadWrite)
            &&& write == (access == AccessMode::WriteOnly || access == AccessMode::ReadWrite)
            &&& e.path@ == joined(parent_path@, name@)
            &&& e.mode == (if req_uid != 0 { mode & !((S_ISUID | S_ISGID) as u32) } else { mode }) as u16
            &&& e.uid == req_uid
            &&& e.gid == if parent_attrs.mode & S_ISGID != 0 { parent_attrs.gid } else { req_gid }
        }),
{
    let (read, write) = match create_access(access) {
        Ok(rw) => rw,
        Err(e) => {
            return Err(e);
        },
    };
    let full_path = parent_path.join(name);
    if !check_access(parent_attrs.uid, parent_attrs.gid, parent_attrs.mode, req_uid, req_gid, W_OK) {
        return Err(FsError::AccessDenied);
    }
    let gid = creation_gid(parent_attrs, req_gid);
    let mode = create_mode(mode, req_uid);
    Ok((NewEntry { path: full_path, mode: mode as u16, uid: req_uid, gid }, read, write))
}

impl Manifest {
    /// The attributes of the object at `path`; a path with no object is
    /// refused.
    pub fn entry_attrs(&self, path: &FsPath) -> (r: Result<InodeAttributes, FsError>)
        requires
            self.inodes.wf(),
        ensures
            self.inodes.map().contains_key(path@) && self.objects@.contains_key(self.inodes.map()[path@])
                ==> (r matches Ok(a) && same_attrs(a, self.objects@[self.inodes.map()[path@]].attrs)),
            !(self.inodes.map().contains_key(path@) && self.objects@.contains_key(self.inodes.map()[path@]))
                ==> r == Err::<InodeAttributes, FsError>(FsError::NotFound),
    {
        match self.obj_from_path(path) {
            Some(obj) => Ok(obj.attrs.clone()),
            None => Err(FsError::NotFound),
        }
    }

    /// Opens a file just made at `path`: one open handle, and a new handle
    /// that reads and writes as asked. Answers its attributes and the
    /// handle.
    pub fn open_created(&mut self, path: &FsPath, read: bool, write: bool) -> (r: Result<(InodeAttributes, u64), FsError>)
        requires
            old(self).inodes.wf(),
            old(self).cur_fh < FILE_HANDLE_WRITE_BIT,
        ensures
            final(self).inodes == old(self).inodes,
            final(self).cur_ino == old(self).cur_ino,
            ({
                let m = old(self).inodes.map();
                let o = old(self).objects@;
                if m.contains_key(path@) && o.contains_key(m[path@]) && o.contains_key(o[m[path@]].attrs.inode) {
                    let a = o[m[path@]].attrs;
                    &&& r matches Ok((n, fh)) && fh == handle_bits(old(self).cur_fh, read, write)
                        && same_attrs(n, InodeAttributes { open_file_handles: 1, ..a })
                        && written(o, final(self).objects@, n)
                    &&& final(self).cur_fh == old(self).cur_fh + 1
                } else {
                    r == Err::<(InodeAttributes, u64), FsError>(FsError::NotFound)
                }
            }),
    {
        let mut attrs = match self.entry_attrs(path) {
            Ok(a) => a,
            Err(e) => {
                return Err(e);
            },
        };
        attrs.open_file_handles = 1;
        if self.write_inode(&attrs).is_err() {
            return Err(FsError::NotFound);
        }
        let fh = self.next_file_handle(read, write);
        Ok((attrs, fh))
    }

    /// What removing the directory `name` of the directory at inode
    /// `parent` removes: its path, its attributes and those of the parent;
    /// an unknown directory is refused.
    pub fn rmdir_prepare(&self, parent: u64, name: &str) -> (r: Result<(FsPath, InodeAttributes, InodeAttributes), FsError>)
        requires
            self.inodes.wf(),
            self.objects@.contains_key(parent),
        ensures
            ({
                let path = joined(self.objects@[parent].full_path@, name@);
                if self.inodes.map().contains_key(path) && self.objects@.contains_key(self.inodes.map()[path]) {
                    r matches Ok((p, a, pa)) && p@ == path && same_attrs(a, self.objects@[self.inodes.map()[path]].attrs)
                        && same_attrs(pa, self.objects@[parent].attrs)
                } else {
                    r == Err::<(FsPath, InodeAttributes, InodeAttributes), FsError>(FsError::NotFound)
                }
            }),
    {
        proof {
            lemma_inode_order();
        }
        let full_path = match self.get_full_path(parent, name) {
            Ok(p) => p,
            Err(_) => {
                return Err(FsError::NotFound);
            },
        };
        let attrs = match self.entry_attrs(&full_path) {
            Ok(a) => a,
            Err(e) => {
                return Err(e);
            },
        };
        let parent_attrs = match self.objects.get(&parent) {
            Some(obj) => obj.attrs.clone(),
            None => {
                return Err(FsError::NotFound);
            },
        };
        Ok((full_path, attrs, parent_attrs))
    }

    /// Records the removal of the directory with attributes `attrs` from
    /// the directory with attributes `parent_attrs`, for `req_uid` /
    /// `req_gid` at time `now`: refused as `removal_allowed` says; else the
    /// parent is stamped and the directory, left with no links, forgotten.
    pub fn rmdir_commit(
        &mut self,
        parent_attrs: &InodeAttributes,
        attrs: &InodeAttributes,
        req_uid: u32,
        req_gid: u32,
        now: SystemTime,
    ) -> (r: Result<(), FsError>)
        requires
            old(self).inodes.wf(),
        ensures
            final(self).inodes.wf(),
            ({
                let o = old(self).objects@;
                let stamped = InodeAttributes { last_modified: now, last_metadata_changed: now, ..*parent_attrs };
                let dropped = InodeAttributes { hardlinks: 0, last_metadata_changed: now, ..*attrs };
                match removal_refusal(*parent_attrs, attrs.uid, req_uid, req_gid) {
                    Some(e) => r == Err::<(), FsError>(e) && final(self).objects == old(self).objects
                        && final(self).inodes == old(self).inodes,
                    None => if !o.contains_key(parent_attrs.inode) {
                        r == Err::<(), FsError>(FsError::NotFound) && final(self).objects == old(self).objects
                            && final(self).inodes == old(self).inodes
                    } else if !o.contains_key(attrs.inode) {
                        r == Err::<(), FsError>(FsError::NotFound) && written(o, final(self).objects@, stamped)
                            && final(self).inodes == old(self).inodes
                    } else {
                        r is Ok && entry_removed(o, old(self).inodes.map(), final(self).objects@, final(self).inodes.map(), stamped, dropped)
                    },
                }
            }),
            final(self).cur_ino == old(self).cur_ino,
            final(self).cur_fh == old(self).cur_fh,
    {
        if let Err(e) = removal_allowed(parent_attrs, attrs.uid, req_uid, req_gid) {
            return Err(e);
        }
        if let Err(e) = self.touch_dir(parent_attrs, now) {
            return Err(e);
        }
        let ghost mid = self.objects@;
        let mut dropped = attrs.clone();
        dropped.hardlinks = 0;
        dropped.last_metadata_changed = now;
        if self.write_inode(&dropped).is_err() {
            return Err(FsError::NotFound);
        }
        let ghost mid2 = self.objects@;
        if self.gc_inode(&dropped).is_err() {
            return Err(FsError::NotFound);
        }
        proof {
            let o = old(self).objects@;
            let stamped = InodeAttributes { last_modified: now, last_metadata_changed: now, ..*parent_attrs };
            let d = InodeAttributes { hardlinks: 0, last_metadata_changed: now, ..*attrs };
            assert(written(o, mid, stamped));
            assert(written(mid, mid2, d));
        }
        Ok(())
    }
}


/// The entry with key `key` (if it was read) of the directory at `base`
/// has an object.
pub open spec fn key_resolves(m: Manifest, base: Seq<Seq<char>>, key: Option<Vec<u8>>) -> bool {
    key matches Some(k) ==> {
        let path = joined(base, decode_utf8(k@));
        m.inodes.map().contains_key(path) && m.objects@.contains_key(m.inodes.map()[path])
    }
}

/// The listing of the entries of the directory at `base` whose keys are
/// `keys` (`None` for an entry that could not be read): each entry read,
/// with the inode and kind of its object, its name, and the offset of the
/// entry after it.
pub open spec fn entries_of(m: Manifest, base: Seq<Seq<char>>, keys: Seq<Option<Vec<u8>>>) -> Seq<EntryView>
    decreases keys.len(),
{
    if keys.len() == 0 {
        Seq::empty()
    } else {
        let prev = entries_of(m, base, keys.drop_last());
        match keys.last() {
            None => prev,
            Some(k) => {
                let path = joined(base, decode_utf8(k@));
                let o = m.objects@[m.inodes.map()[path]].attrs;
                prev.push(EntryView { ino: o.inode, offset: keys.len() as i64, kind: o.kind, name: decode_utf8(k@) })
            },
        }
    }
}

/// The `.` and `..` entries of the directory at inode `ino`.
pub open spec fn dot_entries(ino: u64) -> Seq<EntryView> {
    seq![
        EntryView { ino, offset: 0, kind: FileKind::Directory, name: "."@ },
        EntryView { ino, offset: 1, kind: FileKind::Directory, name: ".."@ },
    ]
}

impl Manifest {
    /// The listing of the directory at inode `ino` from entry `offset`, from
    /// the keys of its entries (`None` for an entry that could not be
    /// read): nothing when `offset` is past the start; else `.` and `..`,
    /// then each entry read, with its inode and kind, numbered by its place.
    /// An unknown directory, and an entry with no object, are not served.
    pub fn readdir_listing(&self, ino: u64, offset: i64, keys: &Vec<Option<Vec<u8>>>) -> (r: Result<Vec<DirEntry>, FsError>)
        requires
            self.inodes.wf(),
            offset >= 0,
            keys@.len() < i64::MAX,
            forall|i: int| 0 <= i < keys@.len() ==> (#[trigger] keys@[i] matches Some(k) ==> valid_utf8(k@)),
        ensures
            offset != 0 ==> (r matches Ok(v) && v@.len() == 0),
            offset == 0 && !self.objects@.contains_key(ino) ==> r == Err::<Vec<DirEntry>, FsError>(FsError::NotImplemented),
            offset == 0 && self.objects@.contains_key(ino) ==> {
                let base = self.objects@[ino].full_path@;
                &&& (forall|i: int| 0 <= i < keys@.len() ==> #[trigger] key_resolves(*self, base, keys@[i])) ==> (r matches Ok(v)
                    && v@.map_values(|e: DirEntry| e@) == dot_entries(ino) + entries_of(*self, base, keys@))
                &&& !(forall|i: int| 0 <= i < keys@.len() ==> #[trigger] key_resolves(*self, base, keys@[i])) ==> r == Err::<
                    Vec<DirEntry>,
                    FsError,
                >(FsError::NotImplemented)
            },
    {
        proof {
            lemma_inode_order();
            reveal_strlit(".");
            reveal_strlit("..");
        }
        let mut listing: Vec<DirEntry> = Vec::new();
        if offset != 0 {
            return Ok(listing);
        }
        let dir_path = match self.objects.get(&ino) {
            Some(obj) => obj.full_path.clone(),
            None => {
                return Err(FsError::NotImplemented);
            },
        };
        listing.push(DirEntry { ino, offset: 0, kind: FileKind::Directory, name: String::from_str(".") });
        listing.push(DirEntry { ino, offset: 1, kind: FileKind::Directory, name: String::from_str("..") });
        let ghost base = self.objects@[ino].full_path@;
        proof {
            assert(keys@.take(0) =~= Seq::<Option<Vec<u8>>>::empty());
            assert(listing@.map_values(|e: DirEntry| e@) =~= dot_entries(ino) + entries_of(*self, base, keys@.take(0)));
        }
        let mut index: usize = 0;
        while index < keys.len()
            invariant
                self.inodes.wf(),
                offset == 0,
                self.objects@.contains_key(ino),
                index <= keys@.len(),
                keys@.len() < i64::MAX,
                dir_path@ == base,
                base == self.objects@[ino].full_path@,
                forall|i: int| 0 <= i < keys@.len() ==> (#[trigger] keys@[i] matches Some(k) ==> valid_utf8(k@)),
                forall|i: int| 0 <= i < index ==> #[trigger] key_resolves(*self, base, keys@[i]),
                listing@.map_values(|e: DirEntry| e@) == dot_entries(ino) + entries_of(*self, base, keys@.take(index as int)),
            decreases keys@.len() - index,
        {
            let ghost start = listing@;
            proof {
                assert(keys@.take(index + 1).drop_last() =~= keys@.take(index as int));
                assert(keys@.take(index + 1).last() == keys@[index as int]);
            }
            if let Some(key) = &keys[index] {
                let name = match utf8_text(key.as_slice()) {
                    Some(t) => t,
                    None => String::new(),
                };
                let full_entry_path = dir_path.join(name.as_str());
                match self.obj_from_path(&full_entry_path) {
                    Some(obj) => {
                        listing.push(DirEntry {
                            ino: obj.attrs.inode,
                            offset: (index + 1) as i64,
                            kind: obj.attrs.kind,
                            name,
                        });
                        proof {
                            assert(listing@.map_values(|e: DirEntry| e@) =~= start.map_values(|e: DirEntry| e@).push(
                                listing@[start.len() as int]@,
                            ));
                            assert(listing@.map_values(|e: DirEntry| e@) =~= dot_entries(ino) + entries_of(*self, base, keys@.take(index + 1)));
                        }
                    },
                    None => {
                        proof {
                            assert(!key_resolves(*self, base, keys@[index as int]));
                        }
                        return Err(FsError::NotImplemented);
                    },
                }
            }
            index = index + 1;
        }
        proof {
            assert(keys@.take(keys@.len() as int) =~= keys@);
        }
        Ok(listing)
    }
}

/// Releasing a handle undoes opening it: where an open counted one more
/// handle of the object at inode `ino` (from `o0` to `o1`) and a release
/// then counted one fewer (from `o1` to `o2`), the count is as before, and
/// no other object changed.
pub proof fn lemma_release_undoes_open(o0: Map<u64, Object>, o1: Map<u64, Object>, o2: Map<u64, Object>, ino: u64)
    requires
        o0.contains_key(ino),
        o0[ino].attrs.inode == ino,
        written(o0, o1, InodeAttributes { open_file_handles: (o0[ino].attrs.open_file_handles + 1) as u64, ..o0[ino].attrs }),
        o0[ino].attrs.open_file_handles < u64::MAX,
        written(o1, o2, InodeAttributes { open_file_handles: (o1[ino].attrs.open_file_handles - 1) as u64, ..o1[ino].attrs }),
    ensures
        o2.dom() == o0.dom(),
        o2[ino].attrs.open_file_handles == o0[ino].attrs.open_file_handles,
        o2[ino].attrs.mode == o0[ino].attrs.mode,
        o2[ino].attrs.size == o0[ino].attrs.size,
        forall|i: u64| #[trigger] o0.contains_key(i) && i != ino ==> o2[i] == o0[i],
{
}

} // verus!
