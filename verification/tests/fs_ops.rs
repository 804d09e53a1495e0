use lis::fs_ops::{create_entry, mkdir_entry, read_slice, TimeOrNow};
use lis::fuse::{AccessMode, FileKind, FsError, FILE_HANDLE_READ_BIT, FILE_HANDLE_WRITE_BIT};
use lis::manifest::Manifest;
use lis::path::FsPath;
use std::time::{Duration, SystemTime};

fn manifest() -> Manifest {
    let now = SystemTime::UNIX_EPOCH;
    let mut m = Manifest::new(FsPath::new("/state.json"), "doc".to_string(), now, 1000, 1000);
    m.create_fs_objects(&FsPath::new("/f.txt"), FileKind::File, Some(10), Some(0o644), None, None, now, 1000, 1000);
    m.create_fs_objects(&FsPath::new("/d"), FileKind::Directory, None, Some(0o755), None, None, now, 1000, 1000);
    m
}

#[test]
fn ops_getattr_and_lookup() {
    let m = manifest();
    assert_eq!(m.getattr(2).unwrap().size, 10);
    assert_eq!(m.getattr(99).unwrap_err(), FsError::NotImplemented);
    assert_eq!(m.lookup(1, "f.txt", 1000, 1000).unwrap().inode, 2);
    assert_eq!(m.lookup(1, "nope", 1000, 1000).unwrap_err(), FsError::NotFound);
    assert_eq!(m.lookup(42, "f.txt", 1000, 1000).unwrap_err(), FsError::NotFound);
    let long = "x".repeat(256);
    assert_eq!(m.lookup(1, &long, 1000, 1000).unwrap_err(), FsError::NameTooLong);
}

#[test]
fn ops_open_and_release() {
    let mut m = manifest();
    let fh = m.open(2, AccessMode::ReadWrite, false, 0, 1000, 1000).unwrap();
    assert_ne!(fh & FILE_HANDLE_READ_BIT, 0);
    assert_ne!(fh & FILE_HANDLE_WRITE_BIT, 0);
    assert_eq!(m.getattr(2).unwrap().open_file_handles, 1);
    // someone else may not write a 0o644 file
    assert_eq!(m.open(2, AccessMode::WriteOnly, false, 0, 2000, 2000).unwrap_err(), FsError::AccessDenied);
    assert_eq!(m.open(2, AccessMode::ReadOnly, true, 0, 1000, 1000).unwrap_err(), FsError::AccessDenied);
    assert_eq!(m.open(2, AccessMode::Invalid, false, 0, 1000, 1000).unwrap_err(), FsError::InvalidArgument);
    assert_eq!(m.open(77, AccessMode::ReadOnly, false, 0, 1000, 1000).unwrap_err(), FsError::NotFound);
    assert_eq!(m.release(2), Ok(()));
    assert_eq!(m.getattr(2).unwrap().open_file_handles, 0);
    assert_eq!(m.release(77), Ok(()));
    let dh = m.opendir(3, AccessMode::ReadOnly, false, 1000, 1000).unwrap();
    assert_ne!(dh & FILE_HANDLE_READ_BIT, 0);
    assert_eq!(dh & FILE_HANDLE_WRITE_BIT, 0);
}

#[test]
fn ops_read_and_write_targets() {
    let mut m = manifest();
    assert_eq!(m.read_target(2, FILE_HANDLE_READ_BIT).unwrap().to_string(), "/f.txt");
    assert_eq!(m.read_target(2, 0).unwrap_err(), FsError::AccessDenied);
    assert_eq!(m.write_target(2, FILE_HANDLE_READ_BIT).unwrap_err(), FsError::AccessDenied);
    assert_eq!(m.write_target(9, FILE_HANDLE_WRITE_BIT).unwrap_err(), FsError::NotFound);
    let later = SystemTime::UNIX_EPOCH + Duration::from_secs(9);
    assert_eq!(m.record_write(2, 8, 4, later), Ok(4));
    let a = m.getattr(2).unwrap();
    assert_eq!(a.size, 12);
    assert_eq!(a.last_modified, later);
    assert_eq!(m.record_write(2, 0, 3, later), Ok(3));
    assert_eq!(m.getattr(2).unwrap().size, 12);
    assert_eq!(read_slice(b"hello world", 6, 100), b"world".to_vec());
    assert_eq!(read_slice(b"hello", 1, 2), b"el".to_vec());
    assert_eq!(read_slice(b"hello", 5, 3), Vec::<u8>::new());
}

#[test]
fn ops_setattr() {
    let mut m = manifest();
    let now = SystemTime::UNIX_EPOCH + Duration::from_secs(100);
    let groups: Vec<u32> = vec![];
    let a = m.setattr(2, 1000, 1000, &groups, Some(0o600), None, None, None, None, None, None, now).unwrap();
    assert_eq!(a.mode, 0o600);
    assert_eq!(m.getattr(2).unwrap().mode, 0o600);
    assert_eq!(
        m.setattr(2, 2000, 2000, &groups, Some(0o777), None, None, None, None, None, None, now).unwrap_err(),
        FsError::NotPermitted
    );
    assert_eq!(
        m.setattr(2, 1000, 1000, &groups, None, Some(5), None, None, None, None, None, now).unwrap_err(),
        FsError::NotPermitted
    );
    let t = SystemTime::UNIX_EPOCH + Duration::from_secs(7);
    let a = m
        .setattr(2, 1000, 1000, &groups, None, None, None, None, Some(TimeOrNow::SpecificTime(t)), Some(TimeOrNow::Now), None, now)
        .unwrap();
    assert_eq!(a.last_accessed, t);
    assert_eq!(a.last_modified, now);
    assert_eq!(a.last_metadata_changed, now);
    assert_eq!(m.setattr(99, 0, 0, &groups, None, None, None, None, None, None, None, now).unwrap_err(), FsError::NotFound);
    // a size change without write permission is refused
    assert_eq!(
        m.setattr(2, 2000, 2000, &groups, None, None, None, Some(1), None, None, None, now).unwrap_err(),
        FsError::AccessDenied
    );
    // through a handle opened for writing it is made as root
    let a = m.setattr(2, 2000, 2000, &groups, None, None, None, Some(1), None, None, Some(FILE_HANDLE_WRITE_BIT), now);
    assert!(a.is_ok());
}

#[test]
fn ops_unlink_and_rmdir() {
    let mut m = manifest();
    let now = SystemTime::UNIX_EPOCH + Duration::from_secs(3);
    let (path, attrs) = m.unlink_prepare(1, "f.txt", 1000, 1000).unwrap();
    assert_eq!(path.to_string(), "/f.txt");
    assert_eq!(attrs.inode, 2);
    assert_eq!(m.unlink_prepare(1, "f.txt", 2000, 2000).unwrap_err(), FsError::AccessDenied);
    assert_eq!(m.unlink_prepare(1, "ghost", 1000, 1000).unwrap_err(), FsError::NotFound);
    assert_eq!(m.unlink_commit(1, &attrs, now), Ok(()));
    assert!(m.obj_from_path(&FsPath::new("/f.txt")).is_none());
    assert_eq!(m.getattr(1).unwrap().last_modified, now);

    let (dpath, dattrs, pattrs) = m.rmdir_prepare(1, "d").unwrap();
    assert_eq!(dpath.to_string(), "/d");
    assert_eq!(m.rmdir_commit(&pattrs, &dattrs, 2000, 2000, now).unwrap_err(), FsError::AccessDenied);
    assert_eq!(m.rmdir_commit(&pattrs, &dattrs, 1000, 1000, now), Ok(()));
    assert!(m.obj_from_path(&FsPath::new("/d")).is_none());
}

#[test]
fn ops_new_entries() {
    let mut m = manifest();
    let (pattrs, ppath) = m.new_entry_parent(3).unwrap();
    assert_eq!(ppath.to_string(), "/d");
    let e = mkdir_entry(&pattrs, &ppath, "sub", 0o4755, 1000, 1000).unwrap();
    assert_eq!(e.path.to_string(), "/d/sub");
    assert_eq!(e.mode, 0o755);
    assert_eq!(e.uid, 1000);
    assert!(mkdir_entry(&pattrs, &ppath, "sub", 0o755, 2000, 2000).is_err());
    let (f, read, write) = create_entry(&pattrs, &ppath, "new.txt", 0o644, AccessMode::WriteOnly, 1000, 1000).unwrap();
    assert_eq!(f.path.to_string(), "/d/new.txt");
    assert!(!read && write);
    assert_eq!(
        create_entry(&pattrs, &ppath, "x", 0o644, AccessMode::Invalid, 1000, 1000).unwrap_err(),
        FsError::InvalidArgument
    );
    let now = SystemTime::UNIX_EPOCH;
    m.create_fs_objects(&f.path, FileKind::File, Some(4), Some(f.mode), Some(f.uid), Some(f.gid), now, 1000, 1000);
    assert_eq!(m.touch_dir(&pattrs, now), Ok(()));
    let (attrs, fh) = m.open_created(&f.path, read, write).unwrap();
    assert_eq!(attrs.open_file_handles, 1);
    assert_ne!(fh & FILE_HANDLE_WRITE_BIT, 0);
    assert_eq!(m.entry_attrs(&FsPath::new("/d/new.txt")).unwrap().size, 4);
    assert_eq!(m.new_entry_parent(50).unwrap_err(), FsError::NotFound);
}

#[test]
fn ops_readdir_listing() {
    let mut m = manifest();
    let now = SystemTime::UNIX_EPOCH;
    m.create_fs_objects(&FsPath::new("/d/a"), FileKind::File, None, None, None, None, now, 1000, 1000);
    let keys = vec![Some(b"a".to_vec()), None];
    let listing = m.readdir_listing(3, 0, &keys).unwrap();
    assert_eq!(listing.len(), 3);
    assert_eq!(listing[0].name, ".");
    assert_eq!(listing[1].name, "..");
    assert_eq!(listing[2].name, "a");
    assert_eq!(listing[2].ino, 4);
    assert_eq!(listing[2].offset, 1);
    assert_eq!(listing[2].kind, FileKind::File);
    assert!(m.readdir_listing(3, 5, &keys).unwrap().is_empty());
    assert_eq!(m.readdir_listing(3, 0, &vec![Some(b"zz".to_vec())]).unwrap_err(), FsError::NotImplemented);
    assert_eq!(m.readdir_listing(99, 0, &keys).unwrap_err(), FsError::NotImplemented);
}
