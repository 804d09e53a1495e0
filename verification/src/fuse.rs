//! Permission and attribute rules of the filesystem.
//!
//! The FUSE callbacks themselves talk to the kernel and to the document
//! store; what they decide (whether a caller may open, change or remove an
//! object, and what the object's attributes become) is stated here.

use vstd::prelude::*;
use std::collections::BTreeMap;
use std::time::SystemTime;

verus! {

/// Size of a block, in bytes.
pub const BLOCK_SIZE: u64 = 512;

/// Longest file name accepted.
pub const MAX_NAME_LENGTH: u32 = 255;

/// Largest file size accepted.
pub const MAX_FILE_SIZE: u64 = 1099511627776;

/// File handle bit marking read access.
pub const FILE_HANDLE_READ_BIT: u64 = 9223372036854775808;

/// File handle bit marking write access.
pub const FILE_HANDLE_WRITE_BIT: u64 = 4611686018427387904;

/// Open flag of an open made by the kernel's exec.
pub const FMODE_EXEC: i32 = 0x20;

/// Access mask testing existence only.
pub const F_OK: i32 = 0;

/// Access mask bit for reading.
pub const R_OK: i32 = 4;

/// Access mask bit for writing.
pub const W_OK: i32 = 2;

/// Access mask bit for executing.
pub const X_OK: i32 = 1;

/// Mode bit: set user id on execution.
pub const S_ISUID: u16 = 0o4000;

/// Mode bit: set group id on execution (on a directory: new entries take
/// its group).
pub const S_ISGID: u16 = 0o2000;

/// Mode bit: sticky (only owners may remove entries of the directory).
pub const S_ISVTX: u16 = 0o1000;

/// Mode bit: executable by its owner.
pub const S_IXUSR: u16 = 0o100;

/// Mode bit: executable by its group.
pub const S_IXGRP: u16 = 0o10;

/// Mode bit: executable by others.
pub const S_IXOTH: u16 = 0o1;

#[derive(Debug, Clone, Copy, PartialEq, Eq, Structural)]
pub enum FileKind {
    File,
    Directory,
    Symlink,
}

/// Why a filesystem request is refused.
#[derive(Debug, Clone, Copy, PartialEq, Eq, Structural)]
pub enum FsError {
    /// The caller lacks the permission bits (`EACCES`).
    AccessDenied,
    /// The caller may not make this change at all (`EPERM`).
    NotPermitted,
    /// The request is malformed (`EINVAL`).
    InvalidArgument,
    /// The file would grow past the largest size allowed (`EFBIG`).
    FileTooBig,
    /// No such file (`ENOENT`).
    NotFound,
    /// The request is not served (`ENOSYS`).
    NotImplemented,
    /// A name is longer than allowed (`ENAMETOOLONG`).
    NameTooLong,
    /// The data could not be stored (`EBADF`).
    BadDescriptor,
    /// A directory could not be removed (`ENOTEMPTY`).
    NotEmpty,
    /// An entry of that name exists (`EEXIST`).
    Exists,
}

/// The access mode of an open request.
#[derive(Debug, Clone, Copy, PartialEq, Eq, Structural)]
pub enum AccessMode {
    ReadOnly,
    WriteOnly,
    ReadWrite,
    /// No single access mode was given.
    Invalid,
}

#[derive(Debug)]
pub struct InodeAttributes {
    pub inode: u64,
    /// Ref count of open file handles to this inode
    pub open_file_handles: u64,
    pub size: u64,
    pub last_accessed: SystemTime,
    pub last_modified: SystemTime,
    pub last_metadata_changed: SystemTime,
    pub kind: FileKind,
    /// Permissions and special mode bits
    pub mode: u16,
    pub hardlinks: u32,
    pub uid: u32,
    pub gid: u32,
    pub xattrs: BTreeMap<Vec<u8>, Vec<u8>>,
}

/// `attrs` and `other` agree on everything but the mode, owner, group and
/// metadata-change time.
pub open spec fn same_but_owner_fields(a: InodeAttributes, b: InodeAttributes) -> bool {
    &&& a.inode == b.inode
    &&& a.open_file_handles == b.open_file_handles
    &&& a.size == b.size
    &&& a.last_accessed == b.last_accessed
    &&& a.last_modified == b.last_modified
    &&& a.kind == b.kind
    &&& a.hardlinks == b.hardlinks
    &&& a.xattrs == b.xattrs
}

/// Whether a caller `uid`/`gid` may access a file of owner `file_uid`,
/// group `file_gid` and mode `file_mode` for `mask`: existence always;
/// root for anything but execution, and for execution if some execute bit
/// is set; others when the permission bits of their class (owner, else
/// group, else others) include every bit of the mask.
pub open spec fn access_allowed(file_uid: u32, file_gid: u32, file_mode: u16, uid: u32, gid: u32, mask: i32) -> bool {
    if mask == F_OK {
        true
    } else if uid == 0 {
        mask & X_OK == 0 || file_mode & (S_IXUSR | S_IXGRP | S_IXOTH) != 0
    } else {
        let bits: i32 = if uid == file_uid {
            (file_mode >> 6u16) as i32
        } else if gid == file_gid {
            (file_mode >> 3u16) as i32
        } else {
            file_mode as i32
        };
        mask & bits == mask
    }
}

/// Check whether a caller may access a file for the permissions in `access_mask`.
pub fn check_access(file_uid: u32, file_gid: u32, file_mode: u16, uid: u32, gid: u32, access_mask: i32) -> (r: bool)
    ensures
        r == access_allowed(file_uid, file_gid, file_mode, uid, gid, access_mask),
{
    // F_OK tests for existence of file
    if access_mask == F_OK {
        return true;
    }
    // root is allowed to read & write anything, and to execute if one of
    // the X bits is set
    if uid == 0 {
        return access_mask & X_OK == 0 || file_mode & (S_IXUSR | S_IXGRP | S_IXOTH) != 0;
    }
    let bits: i32 = if uid == file_uid {
        (file_mode >> 6u16) as i32
    } else if gid == file_gid {
        (file_mode >> 3u16) as i32
    } else {
        file_mode as i32
    };
    access_mask & bits == access_mask
}

/// The group a new object gets: its parent's group if the parent has the
/// set-group-id bit, else the caller's.
pub fn creation_gid(parent: &InodeAttributes, gid: u32) -> (r: u32)
    ensures
        r == if parent.mode & S_ISGID != 0 {
            parent.gid
        } else {
            gid
        },
{
    if parent.mode & S_ISGID != 0 {
        return parent.gid;
    }
    gid
}

/// The mode without its set-user-id bit, and without its set-group-id bit
/// when it is executable by the group.
pub open spec fn suid_sgid_cleared(mode: u16) -> u16 {
    let m = mode & !S_ISUID;
    if m & S_IXGRP != 0 {
        m & !S_ISGID
    } else {
        m
    }
}

/// Clear the set-user-id bit, and the set-group-id bit of a group-executable file.
pub fn clear_suid_sgid(attrs: &mut InodeAttributes)
    ensures
        final(attrs).mode == suid_sgid_cleared(old(attrs).mode),
        same_but_owner_fields(*final(attrs), *old(attrs)),
        final(attrs).uid == old(attrs).uid,
        final(attrs).gid == old(attrs).gid,
        final(attrs).last_metadata_changed == old(attrs).last_metadata_changed,
{
    attrs.mode = attrs.mode & !S_ISUID;
    // SGID is only suppose to be cleared if XGRP is set
    if attrs.mode & S_IXGRP != 0 {
        attrs.mode = attrs.mode & !S_ISGID;
    }
}

/// Whether a file handle was opened for reading.
pub fn check_file_handle_read(file_handle: u64) -> (r: bool)
    ensures
        r == (file_handle & FILE_HANDLE_READ_BIT != 0),
{
    (file_handle & FILE_HANDLE_READ_BIT) != 0
}

/// Whether a file handle was opened for writing.
pub fn check_file_handle_write(file_handle: u64) -> (r: bool)
    ensures
        r == (file_handle & FILE_HANDLE_WRITE_BIT != 0),
{
    (file_handle & FILE_HANDLE_WRITE_BIT) != 0
}

/// A path that is neither a file, a directory nor a symbolic link.
#[derive(Debug, Clone, Copy, PartialEq, Eq, Structural)]
pub struct UnsupportedPathType;

/// The kind of an object from what the filesystem reports of it: a file
/// first, then a directory, then a symbolic link.
pub fn kind_from(is_file: bool, is_dir: bool, is_symlink: bool) -> (r: Result<FileKind, UnsupportedPathType>)
    ensures
        r == if is_file {
            Ok(FileKind::File)
        } else if is_dir {
            Ok(FileKind::Directory)
        } else if is_symlink {
            Ok(FileKind::Symlink)
        } else {
            Err(UnsupportedPathType)
        },
{
    if is_file {
        Ok(FileKind::File)
    } else if is_dir {
        Ok(FileKind::Directory)
    } else if is_symlink {
        Ok(FileKind::Symlink)
    } else {
        Err(UnsupportedPathType)
    }
}

/// What an open request asks: the access mask to check, and whether the
/// handle reads and writes.
pub open spec fn open_decision(mode: AccessMode, truncate: bool, flags: i32) -> Result<(i32, bool, bool), FsError> {
    match mode {
        AccessMode::ReadOnly => if truncate {
            Err(FsError::AccessDenied)
        } else if flags & FMODE_EXEC != 0 {
            Ok((X_OK, true, false))
        } else {
            Ok((R_OK, true, false))
        },
        AccessMode::WriteOnly => Ok((W_OK, false, true)),
        AccessMode::ReadWrite => Ok((R_OK | W_OK, true, true)),
        AccessMode::Invalid => Err(FsError::InvalidArgument),
    }
}

/// The access an open request asks for. A read-only open that truncates is
/// refused (behavior is undefined, but most filesystems refuse it); one
/// made by exec asks to execute; exactly one access mode must be given.
pub fn open_access(mode: AccessMode, truncate: bool, flags: i32) -> (r: Result<(i32, bool, bool), FsError>)
    ensures
        r == open_decision(mode, truncate, flags),
{
    match mode {
        AccessMode::ReadOnly => {
            if truncate {
                Err(FsError::AccessDenied)
            } else if flags & FMODE_EXEC != 0 {
                Ok((X_OK, true, false))
            } else {
                Ok((R_OK, true, false))
            }
        },
        AccessMode::WriteOnly => Ok((W_OK, false, true)),
        AccessMode::ReadWrite => Ok((R_OK | W_OK, true, true)),
        AccessMode::Invalid => Err(FsError::InvalidArgument),
    }
}

/// The access a directory open request asks for: as for files, but never
/// to execute.
pub fn opendir_access(mode: AccessMode, truncate: bool) -> (r: Result<(i32, bool, bool), FsError>)
    ensures
        r == open_decision(mode, truncate, 0),
{
    assert(0i32 & 0x20i32 == 0i32) by (bit_vector);
    match mode {
        AccessMode::ReadOnly => {
            if truncate {
                Err(FsError::AccessDenied)
            } else {
                Ok((R_OK, true, false))
            }
        },
        AccessMode::WriteOnly => Ok((W_OK, false, true)),
        AccessMode::ReadWrite => Ok((R_OK | W_OK, true, true)),
        AccessMode::Invalid => Err(FsError::InvalidArgument),
    }
}

/// Whether the handle of a created file reads and writes.
pub fn create_access(mode: AccessMode) -> (r: Result<(bool, bool), FsError>)
    ensures
        r == match mode {
            AccessMode::ReadOnly => Ok((true, false)),
            AccessMode::WriteOnly => Ok((false, true)),
            AccessMode::ReadWrite => Ok((true, true)),
            AccessMode::Invalid => Err::<(bool, bool), FsError>(FsError::InvalidArgument),
        },
{
    match mode {
        AccessMode::ReadOnly => Ok((true, false)),
        AccessMode::WriteOnly => Ok((false, true)),
        AccessMode::ReadWrite => Ok((true, true)),
        AccessMode::Invalid => Err(FsError::InvalidArgument),
    }
}

/// The mode of a new file: without the set-id bits unless created by root.
pub fn create_mode(mode: u32, uid: u32) -> (r: u32)
    ensures
        r == if uid != 0 {
            mode & !((S_ISUID | S_ISGID) as u32)
        } else {
            mode
        },
{
    if uid != 0 {
        mode & !((S_ISUID | S_ISGID) as u32)
    } else {
        mode
    }
}

/// The mode of a new directory: without the set-id bits unless created by
/// root, and with the set-group-id bit when its parent has it.
pub fn mkdir_mode(mode: u32, uid: u32, parent_mode: u16) -> (r: u32)
    ensures
        r == ({
            let m = if uid != 0 {
                mode & !((S_ISUID | S_ISGID) as u32)
            } else {
                mode
            };
            if parent_mode & S_ISGID != 0 {
                m | (S_ISGID as u32)
            } else {
                m
            }
        }),
{
    let mut m = create_mode(mode, uid);
    if parent_mode & S_ISGID != 0 {
        m = m | (S_ISGID as u32);
    }
    m
}

/// Whether `gid` is among `groups`.
fn in_groups(groups: &Vec<u32>, gid: u32) -> (r: bool)
    ensures
        r == groups@.contains(gid),
{
    let mut i: usize = 0;
    while i < groups.len()
        invariant
            i <= groups.len(),
            forall|j: int| 0 <= j < i ==> groups@[j] != gid,
        decreases groups.len() - i,
    {
        if groups[i] == gid {
            proof {
                assert(groups@[i as int] == gid);
            }
            return true;
        }
        i = i + 1;
    }
    false
}

/// The outcome of a mode change by `req_uid` (of group `req_gid`, member of
/// `groups`): only root and the owner may change it; when a non-root caller
/// outside the file's group sets it, the set-group-id bit is dropped.
pub open spec fn chmod_outcome(attrs: InodeAttributes, req_uid: u32, req_gid: u32, groups: Seq<u32>, mode: u32) -> Result<u16, FsError> {
    if req_uid != 0 && req_uid != attrs.uid {
        Err(FsError::NotPermitted)
    } else if req_uid != 0 && req_gid != attrs.gid && !groups.contains(attrs.gid) {
        Ok((mode & !(S_ISGID as u32)) as u16)
    } else {
        Ok(mode as u16)
    }
}

/// Change the mode of an object (chmod), stamping the metadata change at `now`.
pub fn chmod(attrs: &mut InodeAttributes, req_uid: u32, req_gid: u32, groups: &Vec<u32>, mode: u32, now: SystemTime) -> (r: Result<(), FsError>)
    ensures
        match chmod_outcome(*old(attrs), req_uid, req_gid, groups@, mode) {
            Err(e) => r == Err::<(), FsError>(e) && *final(attrs) == *old(attrs),
            Ok(m) => r is Ok && final(attrs).mode == m && final(attrs).last_metadata_changed == now
                && final(attrs).uid == old(attrs).uid && final(attrs).gid == old(attrs).gid
                && same_but_owner_fields(*final(attrs), *old(attrs)),
        },
{
    if req_uid != 0 && req_uid != attrs.uid {
        return Err(FsError::NotPermitted);
    }
    if req_uid != 0 && req_gid != attrs.gid && !in_groups(groups, attrs.gid) {
        // If SGID is set and the file belongs to a group that the caller is not part of
        // then the SGID bit is suppose to be cleared during chmod
        attrs.mode = (mode & !(S_ISGID as u32)) as u16;
    } else {
        attrs.mode = mode as u16;
    }
    attrs.last_metadata_changed = now;
    Ok(())
}

/// The outcome of an ownership change by `req_uid` (member of `groups`):
/// non-root callers may only set a group they are in, may not give the file
/// away (a no-op change by the owner is fine), and only the owner may change
/// the group. An executable file loses its set-id bits; a new owner clears
/// set-user-id, and a new group set by a non-root caller clears set-group-id.
pub open spec fn chown_outcome(
    attrs: InodeAttributes,
    req_uid: u32,
    groups: Seq<u32>,
    uid: Option<u32>,
    gid: Option<u32>,
) -> Result<(u16, u32, u32), FsError> {
    if gid matches Some(g) && req_uid != 0 && !groups.contains(g) {
        Err(FsError::NotPermitted)
    } else if uid matches Some(u) && req_uid != 0 && !(u == attrs.uid && req_uid == attrs.uid) {
        Err(FsError::NotPermitted)
    } else if gid is Some && req_uid != 0 && req_uid != attrs.uid {
        Err(FsError::NotPermitted)
    } else {
        let m0 = if attrs.mode & (S_IXUSR | S_IXGRP | S_IXOTH) != 0 {
            suid_sgid_cleared(attrs.mode)
        } else {
            attrs.mode
        };
        let m1 = if uid is Some {
            m0 & !S_ISUID
        } else {
            m0
        };
        let m2 = if gid is Some && req_uid != 0 {
            m1 & !S_ISGID
        } else {
            m1
        };
        Ok((
            m2,
            match uid {
                Some(u) => u,
                None => attrs.uid,
            },
            match gid {
                Some(g) => g,
                None => attrs.gid,
            },
        ))
    }
}

/// Change the owner and group of an object (chown), stamping the metadata
/// change at `now`.
pub fn chown(
    attrs: &mut InodeAttributes,
    req_uid: u32,
    groups: &Vec<u32>,
    uid: Option<u32>,
    gid: Option<u32>,
    now: SystemTime,
) -> (r: Result<(), FsError>)
    ensures
        match chown_outcome(*old(attrs), req_uid, groups@, uid, gid) {
            Err(e) => r == Err::<(), FsError>(e) && *final(attrs) == *old(attrs),
            Ok((m, u, g)) => r is Ok && final(attrs).mode == m && final(attrs).uid == u && final(attrs).gid == g
                && final(attrs).last_metadata_changed == now && same_but_owner_fields(*final(attrs), *old(attrs)),
        },
{
    if let Some(g) = gid {
        // Non-root users can only change gid to a group they're in
        if req_uid != 0 && !in_groups(groups, g) {
            return Err(FsError::NotPermitted);
        }
    }
    if let Some(u) = uid {
        // but no-op changes by the owner are not an error
        if req_uid != 0 && !(u == attrs.uid && req_uid == attrs.uid) {
            return Err(FsError::NotPermitted);
        }
    }
    // Only owner may change the group
    if gid.is_some() && req_uid != 0 && req_uid != attrs.uid {
        return Err(FsError::NotPermitted);
    }
    if attrs.mode & (S_IXUSR | S_IXGRP | S_IXOTH) != 0 {
        // SUID & SGID are suppose to be cleared when chown'ing an executable file
        clear_suid_sgid(attrs);
    }
    if let Some(u) = uid {
        attrs.uid = u;
        // Clear SETUID on owner change
        attrs.mode = attrs.mode & !S_ISUID;
    }
    if let Some(g) = gid {
        attrs.gid = g;
        // Clear SETGID unless user is root
        if req_uid != 0 {
            attrs.mode = attrs.mode & !S_ISGID;
        }
    }
    attrs.last_metadata_changed = now;
    Ok(())
}

/// Whether `req_uid` may set an access or modification time of an object:
/// others than its owner and root may only set it to now, and others than
/// its owner need write access.
pub fn time_change_allowed(attrs: &InodeAttributes, req_uid: u32, req_gid: u32, to_now: bool) -> (r: Result<(), FsError>)
    ensures
        r == if attrs.uid != req_uid && req_uid != 0 && !to_now {
            Err(FsError::NotPermitted)
        } else if attrs.uid != req_uid && !access_allowed(attrs.uid, attrs.gid, attrs.mode, req_uid, req_gid, W_OK) {
            Err(FsError::AccessDenied)
        } else {
            Ok(())
        },
{
    if attrs.uid != req_uid && req_uid != 0 && !to_now {
        return Err(FsError::NotPermitted);
    }
    if attrs.uid != req_uid && !check_access(attrs.uid, attrs.gid, attrs.mode, req_uid, req_gid, W_OK) {
        return Err(FsError::AccessDenied);
    }
    Ok(())
}

/// Whether `req_uid` may remove an entry owned by `entry_uid` from the
/// directory `parent`: it needs write access to the directory, and when the
/// directory is sticky it must be root or own the directory or the entry.
pub fn removal_allowed(parent: &InodeAttributes, entry_uid: u32, req_uid: u32, req_gid: u32) -> (r: Result<(), FsError>)
    ensures
        r == if !access_allowed(parent.uid, parent.gid, parent.mode, req_uid, req_gid, W_OK) {
            Err(FsError::AccessDenied)
        } else if parent.mode & S_ISVTX != 0 && req_uid != 0 && req_uid != parent.uid && req_uid != entry_uid {
            Err(FsError::AccessDenied)
        } else {
            Ok(())
        },
{
    if !check_access(parent.uid, parent.gid, parent.mode, req_uid, req_gid, W_OK) {
        return Err(FsError::AccessDenied);
    }
    // "Sticky bit" handling
    if parent.mode & S_ISVTX != 0 && req_uid != 0 && req_uid != parent.uid && req_uid != entry_uid {
        return Err(FsError::AccessDenied);
    }
    Ok(())
}

/// The number of blocks holding `size` bytes.
pub fn block_count(size: u64) -> (r: u64)
    requires
        size + BLOCK_SIZE <= u64::MAX,
    ensures
        r == (size + BLOCK_SIZE - 1) / (BLOCK_SIZE as int),
{
    (size + BLOCK_SIZE - 1) / BLOCK_SIZE
}

/// Access is granted to a caller other than root exactly when the
/// permission bits of its class (owner, else group, else others) hold every
/// permission the mask asks for: read, write and execute each need their
/// own bit; one granted permission does not stand for another. Existence is
/// always granted, and root may always read and write.
pub proof fn lemma_access_needs_every_requested_bit(
    file_uid: u32,
    file_gid: u32,
    file_mode: u16,
    uid: u32,
    gid: u32,
    mask: i32,
)
    ensures
        access_allowed(file_uid, file_gid, file_mode, uid, gid, F_OK),
        uid == 0 && mask & X_OK == 0 ==> access_allowed(file_uid, file_gid, file_mode, uid, gid, mask),
        uid == 0 && mask != F_OK && mask & X_OK != 0 ==> (access_allowed(file_uid, file_gid, file_mode, uid, gid, mask)
            <==> file_mode & 0o111u16 != 0),
        uid != 0 && 0 < mask <= 7 ==> (access_allowed(file_uid, file_gid, file_mode, uid, gid, mask) <==> ({
            let (rb, wb, xb) = if uid == file_uid {
                (0o400u16, 0o200u16, 0o100u16)
            } else if gid == file_gid {
                (0o40u16, 0o20u16, 0o10u16)
            } else {
                (0o4u16, 0o2u16, 0o1u16)
            };
            &&& (mask & R_OK != 0 ==> file_mode & rb != 0)
            &&& (mask & W_OK != 0 ==> file_mode & wb != 0)
            &&& (mask & X_OK != 0 ==> file_mode & xb != 0)
        })),
{
    assert(S_IXUSR | S_IXGRP | S_IXOTH == 0o111u16) by (bit_vector)
        requires
            S_IXUSR == 0o100u16,
            S_IXGRP == 0o10u16,
            S_IXOTH == 0o1u16,
    ;
    if uid != 0 && 0 < mask <= 7 {
        let m = file_mode;
        assert((mask & ((m >> 6u16) as i32) == mask) <==> ((mask & 4 != 0 ==> m & 0o400 != 0) && (mask & 2 != 0 ==> m
            & 0o200 != 0) && (mask & 1 != 0 ==> m & 0o100 != 0))) by (bit_vector)
            requires
                0 < mask <= 7,
        ;
        assert((mask & ((m >> 3u16) as i32) == mask) <==> ((mask & 4 != 0 ==> m & 0o40 != 0) && (mask & 2 != 0 ==> m
            & 0o20 != 0) && (mask & 1 != 0 ==> m & 0o10 != 0))) by (bit_vector)
            requires
                0 < mask <= 7,
        ;
        assert((mask & (m as i32) == mask) <==> ((mask & 4 != 0 ==> m & 4 != 0) && (mask & 2 != 0 ==> m & 2 != 0) && (
        mask & 1 != 0 ==> m & 1 != 0))) by (bit_vector)
            requires
                0 < mask <= 7,
        ;
    }
}

/// An open whose access mode asks to write gets a handle that writes, and
/// one that asks to read gets a handle that reads (never the other way);
/// the access checked includes write permission for a writing handle and
/// read or execute permission for a reading one. Only a read-only open that
/// truncates, or one with no single access mode, is refused.
pub proof fn lemma_open_handle_follows_mode(mode: AccessMode, truncate: bool, flags: i32, fh: u64)
    requires
        fh < FILE_HANDLE_WRITE_BIT,
    ensures
        open_decision(mode, truncate, flags) is Err <==> (mode == AccessMode::Invalid || (mode == AccessMode::ReadOnly
            && truncate)),
        open_decision(mode, truncate, flags) matches Ok((mask, read, write)) ==> {
            &&& write <==> (mode == AccessMode::WriteOnly || mode == AccessMode::ReadWrite)
            &&& read <==> (mode == AccessMode::ReadOnly || mode == AccessMode::ReadWrite)
            &&& write ==> mask & W_OK != 0
            &&& read ==> mask & (R_OK | X_OK) != 0
            &&& (crate::manifest::handle_bits(fh, read, write) & FILE_HANDLE_WRITE_BIT != 0) == write
            &&& (crate::manifest::handle_bits(fh, read, write) & FILE_HANDLE_READ_BIT != 0) == read
        },
{
    assert(4i32 & (4i32 | 1i32) != 0 && 1i32 & (4i32 | 1i32) != 0 && 2i32 & 2i32 != 0 && (4i32 | 2i32) & 2i32 != 0
        && (4i32 | 2i32) & (4i32 | 1i32) != 0) by (bit_vector);
    if let Ok((mask, read, write)) = open_decision(mode, truncate, flags) {
        crate::manifest::lemma_handle_bits(fh, read, write);
    }
}

/// Only root and the owner may change a mode. The new mode is the requested
/// one in every bit but set-group-id; that bit is kept as requested when
/// the caller is root or belongs to the file's group (by its group or its
/// supplementary groups), and dropped otherwise.
pub proof fn lemma_chmod_keeps_requested_mode(
    attrs: InodeAttributes,
    req_uid: u32,
    req_gid: u32,
    groups: Seq<u32>,
    mode: u32,
)
    ensures
        req_uid != 0 && req_uid != attrs.uid ==> chmod_outcome(attrs, req_uid, req_gid, groups, mode) == Err::<u16, FsError>(
            FsError::NotPermitted),
        (req_uid == 0 || req_uid == attrs.uid) ==> (chmod_outcome(attrs, req_uid, req_gid, groups, mode) matches Ok(m) && {
            &&& m & !S_ISGID == (mode as u16) & !S_ISGID
            &&& (m & S_ISGID != 0) <==> ((mode as u16) & S_ISGID != 0 && (req_uid == 0 || req_gid == attrs.gid
                || groups.contains(attrs.gid)))
        }),
        (req_uid == 0 || req_uid == attrs.uid) && (req_uid == 0 || req_gid == attrs.gid || groups.contains(attrs.gid))
            ==> chmod_outcome(attrs, req_uid, req_gid, groups, mode) == Ok::<u16, FsError>(mode as u16),
{
    let md = mode;
    assert(((md & !(0o2000u16 as u32)) as u16) & !0o2000u16 == (md as u16) & !0o2000u16
        && ((md & !(0o2000u16 as u32)) as u16) & 0o2000u16 == 0) by (bit_vector);
}

} // verus!
