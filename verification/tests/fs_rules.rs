use lis::content::DocumentId;
use lis::doc::{DocType, LisDoc};
use lis::fuse::{
    block_count, check_access, check_file_handle_read, check_file_handle_write, chmod, chown, clear_suid_sgid,
    create_access, create_mode, creation_gid, kind_from, mkdir_mode, open_access, opendir_access, removal_allowed,
    time_change_allowed, AccessMode, FileKind, FsError, UnsupportedPathType, R_OK, W_OK, X_OK,
};
use lis::manifest::{Manifest, ManifestError};
use lis::object::Object;
use lis::path::FsPath;
use std::time::SystemTime;

fn attrs(mode: u16, uid: u32, gid: u32) -> lis::fuse::InodeAttributes {
    let mut o = Object::new(&FsPath::new("/f"), 5, FileKind::File, None, Some(mode), Some(uid), Some(gid), SystemTime::UNIX_EPOCH, 0, 0);
    o.attrs.mode = mode;
    o.attrs
}

#[test]
fn access_rules() {
    // Owner, group and others each use their own bits.
    assert!(check_access(10, 20, 0o640, 10, 99, R_OK | W_OK));
    assert!(check_access(10, 20, 0o640, 11, 20, R_OK));
    assert!(!check_access(10, 20, 0o640, 11, 20, W_OK));
    assert!(!check_access(10, 20, 0o640, 11, 21, R_OK));
    // Root reads anything but executes only with some x bit.
    assert!(check_access(10, 20, 0o000, 0, 0, R_OK | W_OK));
    assert!(!check_access(10, 20, 0o644, 0, 0, X_OK));
    assert!(check_access(10, 20, 0o645, 0, 0, X_OK));
    // Existence is always granted.
    assert!(check_access(10, 20, 0, 11, 21, 0));
}

#[test]
fn mode_rules() {
    let mut a = attrs(0o6755, 1, 2);
    clear_suid_sgid(&mut a);
    assert_eq!(a.mode, 0o755);
    let mut b = attrs(0o6745, 1, 2);
    clear_suid_sgid(&mut b);
    assert_eq!(b.mode, 0o2745);
    assert_eq!(creation_gid(&attrs(0o2755, 1, 7), 9), 7);
    assert_eq!(creation_gid(&attrs(0o755, 1, 7), 9), 9);
    assert_eq!(create_mode(0o6777, 5), 0o777);
    assert_eq!(create_mode(0o6777, 0), 0o6777);
    assert_eq!(mkdir_mode(0o4755, 5, 0o2755), 0o2755);
    assert_eq!(mkdir_mode(0o755, 5, 0o755), 0o755);
}

#[test]
fn open_rules() {
    assert_eq!(open_access(AccessMode::ReadOnly, true, 0), Err(FsError::AccessDenied));
    assert_eq!(open_access(AccessMode::ReadOnly, false, 0x20), Ok((X_OK, true, false)));
    assert_eq!(open_access(AccessMode::ReadWrite, false, 0), Ok((R_OK | W_OK, true, true)));
    assert_eq!(open_access(AccessMode::Invalid, false, 0), Err(FsError::InvalidArgument));
    assert_eq!(opendir_access(AccessMode::ReadOnly, false), Ok((R_OK, true, false)));
    assert_eq!(create_access(AccessMode::WriteOnly), Ok((false, true)));
    assert!(check_file_handle_read(1 << 63 | 3));
    assert!(!check_file_handle_write(1 << 63 | 3));
    assert_eq!(kind_from(false, true, true), Ok(FileKind::Directory));
    assert_eq!(kind_from(false, false, false), Err(UnsupportedPathType));
    assert_eq!(block_count(0), 0);
    assert_eq!(block_count(513), 2);
}

#[test]
fn chmod_chown_rules() {
    let now = SystemTime::UNIX_EPOCH;
    let mut a = attrs(0o2644, 10, 20);
    assert_eq!(chmod(&mut a, 11, 20, &vec![], 0o600, now), Err(FsError::NotPermitted));
    assert_eq!(a.mode, 0o2644);
    // The owner outside the file's group loses the set-group-id bit.
    assert_eq!(chmod(&mut a, 10, 30, &vec![31], 0o2600, now), Ok(()));
    assert_eq!(a.mode, 0o600);
    let mut b = attrs(0o6755, 10, 20);
    assert_eq!(chown(&mut b, 10, &vec![21], None, Some(22), now), Err(FsError::NotPermitted));
    assert_eq!(chown(&mut b, 10, &vec![21], Some(11), None, now), Err(FsError::NotPermitted));
    assert_eq!(chown(&mut b, 10, &vec![21], Some(10), Some(21), now), Ok(()));
    assert_eq!((b.mode, b.uid, b.gid), (0o755, 10, 21));
    let mut c = attrs(0o6644, 10, 20);
    assert_eq!(chown(&mut c, 0, &vec![], Some(3), Some(4), now), Ok(()));
    assert_eq!((c.mode, c.uid, c.gid), (0o2644, 3, 4));
}

#[test]
fn time_and_removal_rules() {
    let a = attrs(0o644, 10, 20);
    assert_eq!(time_change_allowed(&a, 11, 20, false), Err(FsError::NotPermitted));
    assert_eq!(time_change_allowed(&a, 11, 20, true), Err(FsError::AccessDenied));
    assert_eq!(time_change_allowed(&a, 10, 20, false), Ok(()));
    let dir = attrs(0o1777, 10, 20);
    assert_eq!(removal_allowed(&dir, 12, 11, 99), Err(FsError::AccessDenied));
    assert_eq!(removal_allowed(&dir, 11, 11, 99), Ok(()));
    assert_eq!(removal_allowed(&attrs(0o755, 10, 20), 11, 11, 99), Err(FsError::AccessDenied));
}

#[test]
fn object_defaults() {
    let now = SystemTime::UNIX_EPOCH;
    let f = Object::new(&FsPath::new("/f"), 3, FileKind::File, None, None, None, None, now, 7, 8);
    assert_eq!((f.attrs.size, f.attrs.mode, f.attrs.hardlinks, f.attrs.uid, f.attrs.gid), (0, 0o744, 1, 7, 8));
    let d = Object::new(&FsPath::new("/d"), 4, FileKind::Directory, Some(9), Some(0o700), Some(1), None, now, 7, 8);
    assert_eq!((d.attrs.size, d.attrs.mode, d.attrs.hardlinks, d.attrs.uid, d.attrs.gid), (512, 0o700, 2, 1, 8));
}

#[test]
fn manifest_inodes_and_handles() {
    let now = SystemTime::UNIX_EPOCH;
    let mut m = Manifest::new(FsPath::new("/data/lis/state.json"), "doc".to_string(), now, 1, 2);
    assert_eq!(m.obj_from_path(&FsPath::new("/")).map(|o| o.attrs.inode), Some(1));
    assert_eq!(m.next_ino(), 2);
    assert_eq!(m.next_ino(), 3);
    let fh = m.next_file_handle(true, false);
    assert!(check_file_handle_read(fh));
    assert!(!check_file_handle_write(fh));
    assert_eq!(fh & !(1u64 << 63), 1);
    let mut root = m.obj_from_path(&FsPath::new("/")).unwrap().attrs.clone();
    root.mode = 0o700;
    assert_eq!(m.write_inode(&root), Ok(()));
    assert_eq!(m.obj_from_path(&FsPath::new("/")).unwrap().attrs.mode, 0o700);
    let mut missing = root.clone();
    missing.inode = 99;
    assert_eq!(m.write_inode(&missing), Err(ManifestError::InodeNotFound(99)));
    // Garbage collection only forgets objects nothing refers to.
    assert_eq!(m.gc_inode(&root), Ok(false));
    root.hardlinks = 0;
    assert_eq!(m.gc_inode(&root), Ok(true));
    assert!(m.obj_from_path(&FsPath::new("/")).is_none());
    assert_eq!(m.gc_inode(&root), Err(ManifestError::InodeNotFound(1)));
}

#[test]
fn doc_types_and_ids() {
    assert_eq!(DocType::from_bytes(b"children"), DocType::ChildrenDoc);
    assert_eq!(DocType::from_bytes(b"root"), DocType::RootDoc);
    assert_eq!(DocType::from_bytes(b"roots"), DocType::Unknown);
    let doc = LisDoc::from_namespace_id([7u8; 32]);
    assert_eq!(doc.id(), [7u8; 32]);
    assert_eq!(DocumentId::from_digest(&[0x00, 0xff, 0x1a]).0, "00ff1a");
    assert_eq!(
        DocumentId::new(b"").0,
        "af1349b9f5f9a1a6a0404dea36dcc9499bcb25c9adc112b7cc9a93cae41f3262"
    );
}

#[test]
fn manifest_create_and_find_paths() {
    let now = SystemTime::UNIX_EPOCH;
    let mut m = Manifest::new(FsPath::new("/state.json"), "doc".to_string(), now, 1000, 1000);
    let ino = m.create_fs_objects(&FsPath::new("/notes.txt"), FileKind::File, Some(12), None, None, Some(7), now, 1000, 1000);
    assert_eq!(ino, 2);
    let obj = m.obj_from_path(&FsPath::new("/notes.txt")).unwrap();
    assert_eq!(obj.attrs.inode, 2);
    assert_eq!(obj.attrs.size, 12);
    assert_eq!(obj.attrs.mode, 0o744);
    assert_eq!(obj.attrs.uid, 1000);
    assert_eq!(obj.attrs.gid, 7);
    let d = m.create_fs_objects(&FsPath::new("/docs"), FileKind::Directory, None, None, None, None, now, 1000, 1000);
    assert_eq!(d, 3);
    assert_eq!(m.get_full_path(3, "a.md").unwrap().to_string(), "/docs/a.md");
    assert_eq!(m.get_full_path(1, "top").unwrap().to_string(), "/top");
    assert_eq!(m.get_full_path(1, "/abs").unwrap().to_string(), "/abs");
    assert_eq!(m.get_full_path(99, "x").unwrap_err(), ManifestError::InodeNotFound(99));
}

#[test]
fn manifest_truncate() {
    let now = SystemTime::UNIX_EPOCH;
    let later = now + std::time::Duration::from_secs(5);
    let mut m = Manifest::new(FsPath::new("/state.json"), "doc".to_string(), now, 1000, 1000);
    let ino = m.create_fs_objects(&FsPath::new("/f"), FileKind::File, Some(100), Some(0o6774), None, None, now, 1000, 1000);
    let attrs = m.truncate(ino, 10, 1000, 1000, later).unwrap();
    assert_eq!(attrs.size, 10);
    assert_eq!(attrs.last_modified, later);
    // set-user-id cleared, set-group-id cleared as the group may execute
    assert_eq!(attrs.mode, 0o0774);
    assert_eq!(m.obj_from_path(&FsPath::new("/f")).unwrap().attrs.size, 10);
    assert_eq!(m.truncate(ino, u64::MAX, 1000, 1000, later).unwrap_err(), FsError::FileTooBig);
    assert_eq!(m.truncate(42, 1, 1000, 1000, later).unwrap_err(), FsError::NotFound);
    // another user without write permission
    assert_eq!(m.truncate(ino, 1, 2000, 2000, later).unwrap_err(), FsError::AccessDenied);
}
