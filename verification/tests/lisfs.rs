use lis::fuse::FileKind;
use lis::lisfs::{BlockId, LisFS, LisFsError, BLOCK_SIZE, ROOT_INO};

#[test]
fn lisfs_root_attributes() {
    let mut fs = LisFS::new();
    let attr = fs.getattr(ROOT_INO).unwrap();
    assert_eq!(attr.ino, ROOT_INO);
    assert_eq!(attr.kind, FileKind::Directory);
    assert_eq!(attr.perm, 0o755);
    assert_eq!(attr.size, 0);
    assert_eq!(attr.blocks, 0);
    assert_eq!(attr.uid, 1000);
    assert_eq!(attr.gid, 1000);
    assert_eq!(attr.nlink, 1);
    assert_eq!(attr.blksize, 4096);
    let meta = fs.get_file_metadata(ROOT_INO).unwrap();
    assert_eq!(meta.name, "/");
    assert!(meta.is_dir);
    assert_eq!(meta.lease_holder, Some("cg-0".to_string()));
    assert_eq!(fs.getattr(99), Err(LisFsError::NotFound));
}

#[test]
fn lisfs_lookup_creates_files_in_root() {
    let mut fs = LisFS::new();
    let a = fs.lookup(ROOT_INO, "a.txt".to_string()).unwrap();
    assert_eq!(a.ino, 2);
    assert_eq!(a.kind, FileKind::File);
    assert_eq!(a.perm, 0o644);
    assert_eq!(a.size, 0);
    assert_eq!(a.mtime.sec, 0);
    let b = fs.lookup(ROOT_INO, "a.txt".to_string()).unwrap();
    assert_eq!(b.ino, 3);
    assert_eq!(fs.lookup(ROOT_INO, ".".to_string()), Err(LisFsError::NotFound));
    assert_eq!(fs.lookup(ROOT_INO, "..".to_string()), Err(LisFsError::NotFound));
    assert_eq!(fs.lookup(2, "b".to_string()), Err(LisFsError::NotFound));
    let meta = fs.get_file_metadata(2).unwrap();
    assert_eq!(meta.name, "a.txt");
    assert!(!meta.is_dir);
    assert_eq!(meta.lease_holder, None);
    assert_eq!(fs.report().files, 3);
}

#[test]
fn lisfs_write_then_read() {
    let mut fs = LisFS::new();
    let ino = fs.lookup(ROOT_INO, "f".to_string()).unwrap().ino;
    assert_eq!(fs.write(ino, 0, b"hello"), Ok(5));
    assert_eq!(fs.read(ino, 0, 5), Ok(b"hello".to_vec()));
    assert_eq!(fs.read(ino, 1, 3), Ok(b"ell".to_vec()));
    // unwritten bytes read as zeros
    assert_eq!(fs.read(ino, 3, 4), Ok(vec![b'l', b'o', 0, 0]));
    let attr = fs.getattr(ino).unwrap();
    assert_eq!(attr.size, 5);
    assert_eq!(attr.blocks, 1);
}

#[test]
fn lisfs_write_across_blocks() {
    let mut fs = LisFS::new();
    let ino = fs.lookup(ROOT_INO, "g".to_string()).unwrap().ino;
    let data: Vec<u8> = (1..=20).collect();
    assert_eq!(fs.write(ino, 4090, &data), Ok(20));
    assert_eq!(fs.read(ino, 4090, 20), Ok(data.clone()));
    assert_eq!(fs.read(ino, 4096, 4), Ok(vec![7, 8, 9, 10]));
    // the earlier part of the first block is still zero
    assert_eq!(fs.read(ino, 0, 2), Ok(vec![0, 0]));
    let attr = fs.getattr(ino).unwrap();
    assert_eq!(attr.size, 4110);
    assert_eq!(attr.blocks, 2);
    // blocks ino*1000 and ino*1000+1 were written, each under a lease
    let report = fs.report();
    assert_eq!(report.stats.write_operations, 2);
    assert_eq!(report.stats.lease_acquisitions, 2);
    assert_eq!(report.groups, 3);
    let total: usize = report.distribution.iter().map(|(_, n)| *n).sum();
    assert_eq!(total, 2);
}

#[test]
fn lisfs_overwrite_keeps_other_bytes() {
    let mut fs = LisFS::new();
    let ino = fs.lookup(ROOT_INO, "h".to_string()).unwrap().ino;
    assert_eq!(fs.write(ino, 0, b"abcdef"), Ok(6));
    assert_eq!(fs.write(ino, 2, b"XY"), Ok(2));
    assert_eq!(fs.read(ino, 0, 6), Ok(b"abXYef".to_vec()));
    assert_eq!(fs.getattr(ino).unwrap().size, 6);
}

#[test]
fn lisfs_full_block_write_and_stats() {
    let mut fs = LisFS::new();
    let ino = fs.lookup(ROOT_INO, "full".to_string()).unwrap().ino;
    let data = vec![9u8; BLOCK_SIZE as usize];
    assert_eq!(fs.write(ino, 0, &data), Ok(4096));
    let report = fs.report();
    // a whole block is not read before it is written
    assert_eq!(report.stats.read_operations, 0);
    assert_eq!(report.stats.write_operations, 1);
    assert_eq!(fs.read(ino, 0, 4096), Ok(data));
    let report = fs.report();
    assert_eq!(report.stats.read_operations, 1);
    assert_eq!(report.stats.metadata_lookups, 1);
}

#[test]
fn lisfs_read_missing_file() {
    let mut fs = LisFS::new();
    assert_eq!(fs.read(42, 0, 10), Err(LisFsError::NotFound));
    assert_eq!(fs.report().stats.metadata_lookups, 1);
    assert_eq!(fs.report().stats.read_operations, 0);
}

#[test]
fn lisfs_block_placement() {
    let mut fs = LisFS::new();
    assert_eq!(fs.place_block(&BlockId(0)), 0);
    assert_eq!(fs.place_block(&BlockId(7)), 1);
    assert_eq!(fs.place_block(&BlockId(2002)), 1);
    assert_eq!(fs.read_block(&BlockId(7)), None);
    let data = vec![3u8; 4096];
    assert_eq!(fs.write_block(BlockId(7), data.clone()), Ok(()));
    assert_eq!(fs.read_block(&BlockId(7)), Some(data));
    let report = fs.report();
    assert_eq!(report.distribution[0], ("Local".to_string(), 0));
    assert_eq!(report.distribution[1], ("Edge".to_string(), 1));
    assert_eq!(report.distribution[2], ("Cloud".to_string(), 0));
}

#[test]
fn lisfs_next_ino_counts_up() {
    let mut fs = LisFS::new();
    assert_eq!(fs.next_ino(), 2);
    assert_eq!(fs.next_ino(), 3);
    assert!(fs.can_create_file());
    assert!(fs.has_clock_room(10));
}
