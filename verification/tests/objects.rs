use lis::doc::{DocType, LisDoc};
use lis::objects::{
    last_chunk_index, splice_content, trim_read, ChildFound, Children, ChunkWrite, Chunks, FindAction, InodeMap, LisDir,
    LisFile, LisRoot, Metadata, ObjectAttributes, ObjectError, ObjectKind, ObjectType, RootLookup,
};
use lis::path::FsPath;

fn doc() -> LisDoc {
    LisDoc::from_namespace_id([7u8; 32])
}

fn file(chunks: u64, chunk_size: u64, written: u64) -> LisFile {
    let (mut c, _) = Chunks::new(LisDoc::from_namespace_id([2u8; 32]));
    c.size = written;
    let mut m = Metadata::new(LisDoc::from_namespace_id([3u8; 32]), ObjectKind::File, chunk_size);
    m.attrs = ObjectAttributes::FileAttributes { chunks, chunk_size };
    LisFile::new(doc(), c, m).0
}

fn dir_file() -> LisFile {
    let (c, _) = Chunks::new(doc());
    LisFile::new(doc(), c, Metadata::new(doc(), ObjectKind::Dir, 0)).0
}

#[test]
fn metadata_new_and_entries() {
    let m = Metadata::new(doc(), ObjectKind::Dir, 4096);
    assert_eq!(m.kind, "dir");
    assert_eq!(m.attrs, ObjectAttributes::DirAttributes { items: 0 });
    let e = m.entries();
    assert_eq!(e.len(), 2);
    assert_eq!(e[0].0 .0, b"kind".to_vec());
    assert_eq!(e[0].1, b"dir".to_vec());
    assert_eq!(e[1].0 .0, b"items".to_vec());
    assert_eq!(e[1].1, 0u64.to_ne_bytes().to_vec());

    let f = Metadata::new(doc(), ObjectKind::File, 1024);
    assert_eq!(f.kind, "file");
    assert_eq!(f.attrs, ObjectAttributes::FileAttributes { chunks: 0, chunk_size: 1024 });
    let e = f.entries();
    assert_eq!(e.len(), 3);
    assert_eq!(e[1].0 .0, b"chunks".to_vec());
    assert_eq!(e[2].0 .0, b"chunk_size".to_vec());
    assert_eq!(e[2].1, 1024u64.to_ne_bytes().to_vec());
}

#[test]
fn metadata_from_entries() {
    let cs = 512u64.to_ne_bytes();
    let n = 3u64.to_ne_bytes();
    let m = Metadata::from_entries(doc(), DocType::MetadataDoc, Some(b"file"), Some(&cs), Some(&n), None).unwrap();
    assert_eq!(m.kind, "file");
    assert_eq!(m.attrs, ObjectAttributes::FileAttributes { chunks: 3, chunk_size: 512 });
    assert_eq!(m.doc.id(), [7u8; 32]);

    let items = 9u64.to_ne_bytes();
    let d = Metadata::from_entries(doc(), DocType::MetadataDoc, Some(b"dir"), None, None, Some(&items)).unwrap();
    assert_eq!(d.attrs, ObjectAttributes::DirAttributes { items: 9 });

    assert_eq!(
        Metadata::from_entries(doc(), DocType::FileDoc, Some(b"dir"), None, None, Some(&items)).unwrap_err(),
        ObjectError::WrongDocType
    );
    assert_eq!(Metadata::from_entries(doc(), DocType::MetadataDoc, None, None, None, None).unwrap_err(), ObjectError::MissingKey);
    assert_eq!(
        Metadata::from_entries(doc(), DocType::MetadataDoc, Some(b"file"), Some(&cs), None, None).unwrap_err(),
        ObjectError::MissingKey
    );
    assert_eq!(
        Metadata::from_entries(doc(), DocType::MetadataDoc, Some(&[0xff, 0xfe]), None, None, None).unwrap_err(),
        ObjectError::InvalidKind
    );
    assert_eq!(
        Metadata::from_entries(doc(), DocType::MetadataDoc, Some(b"link"), None, None, None).unwrap_err(),
        ObjectError::UnknownKind
    );
}

#[test]
fn metadata_items_and_layout() {
    let mut d = Metadata::new(doc(), ObjectKind::Dir, 0);
    assert_eq!(d.add_item(), Ok(()));
    assert_eq!(d.add_item(), Ok(()));
    assert_eq!(d.attrs, ObjectAttributes::DirAttributes { items: 2 });
    assert_eq!(d.file_layout(), Err(ObjectError::WrongAttributes));
    let mut f = Metadata::new(doc(), ObjectKind::File, 64);
    assert_eq!(f.add_item(), Err(ObjectError::WrongAttributes));
    assert_eq!(f.file_layout(), Ok((0, 64)));
}

#[test]
fn file_size_and_read_span() {
    assert_eq!(last_chunk_index(0), None);
    assert_eq!(last_chunk_index(4), Some(3));
    assert_eq!(file(0, 10, 0).size(None), Ok(0));
    assert_eq!(file(3, 10, 3).size(Some(4)), Ok(24));
    assert_eq!(file(3, 10, 3).size(None), Err(ObjectError::MissingKey));
    assert_eq!(dir_file().size(Some(4)), Err(ObjectError::WrongAttributes));
    let f = file(3, 10, 3);
    assert_eq!(f.read(0, 0, 24), Ok(None));
    assert_eq!(f.read(25, 1, 24), Err(ObjectError::InvalidOffset));
    assert_eq!(f.read(5, 10, 24), Ok(Some((0, 1))));
    // the last chunk is at most the file's last
    assert_eq!(f.read(15, 100, 24), Ok(Some((1, 2))));
    assert_eq!(file(0, 10, 0).read(0, 5, 0), Ok(Some((0, 0))));
    assert_eq!(dir_file().read(0, 5, 0), Err(ObjectError::WrongAttributes));
    assert_eq!(dir_file().read(0, 0, 0), Ok(None));
    let bytes: Vec<u8> = (0..20).collect();
    assert_eq!(trim_read(&bytes, 15, 4, 10), vec![5, 6, 7, 8]);
}

#[test]
fn write_plan() {
    assert_eq!(file(0, 10, 0).write(0, 0, 0), Ok(vec![]));
    // an offset past the end of the file
    assert_eq!(file(1, 10, 0).write(5, 3, 4), Err(ObjectError::InvalidOffset));
    // a first chunk past the chunks written
    assert_eq!(file(1, 10, 0).write(10, 20, 10), Err(ObjectError::InvalidOffset));
    // the offset is checked before the attributes
    assert_eq!(dir_file().write(5, 3, 4), Err(ObjectError::InvalidOffset));
    assert_eq!(dir_file().write(0, 3, 4), Err(ObjectError::WrongAttributes));
    let plan = file(1, 10, 1).write(0, 25, 4).unwrap();
    assert_eq!(
        plan,
        vec![
            ChunkWrite { index: 0, chunk_offset: 0, from: 0, to: 10, extends: false },
            ChunkWrite { index: 1, chunk_offset: 0, from: 10, to: 20, extends: true },
            ChunkWrite { index: 2, chunk_offset: 0, from: 20, to: 25, extends: true },
        ]
    );
    let plan = file(1, 10, 1).write(3, 4, 4).unwrap();
    assert_eq!(plan, vec![ChunkWrite { index: 0, chunk_offset: 3, from: 0, to: 4, extends: false }]);
}

#[test]
fn file_counts_added_chunks() {
    let mut f = file(1, 10, 1);
    assert_eq!(f.add_chunk(), Ok(()));
    assert_eq!(f.chunks.size, 2);
    assert_eq!(f.metadata.attrs, ObjectAttributes::FileAttributes { chunks: 2, chunk_size: 10 });
    let mut d = dir_file();
    assert_eq!(d.add_chunk(), Err(ObjectError::WrongAttributes));
    assert_eq!(d.chunks.size, 1);
}

#[test]
fn chunk_patching() {
    assert_eq!(Chunks::write(b"abcdef", 2, b"XY"), Ok(b"abXYef".to_vec()));
    assert_eq!(Chunks::write(b"abc", 2, b"XYZ"), Ok(b"abXYZ".to_vec()));
    assert_eq!(Chunks::write(b"abc", 3, b"d"), Ok(b"abcd".to_vec()));
    assert_eq!(Chunks::write(b"", 0, b"new"), Ok(b"new".to_vec()));
    assert_eq!(Chunks::write(b"abc", 4, b"d"), Err(ObjectError::InvalidOffset));
}

#[test]
fn directory_entries_and_keys() {
    let keys = vec![b".type".to_vec(), b"a".to_vec(), b".metadata".to_vec(), b"docs".to_vec()];
    let paths = Children::entries(&keys);
    assert_eq!(paths.len(), 2);
    assert_eq!(paths[0].to_string(), "a");
    assert_eq!(paths[1].to_string(), "docs");
    assert_eq!(Children::get(&FsPath::new("a")).unwrap().0, b"a".to_vec());
    assert!(Children::get(&FsPath::new("a/b")).is_err());
    assert!(Children::get(&FsPath::new("/")).is_ok());
    let (k, v) = Children::put(&FsPath::new("b"), [5u8; 32]).unwrap();
    assert_eq!(k.0, b"b".to_vec());
    assert_eq!(v, vec![5u8; 32]);
    assert_eq!(Children::put(&FsPath::new("a/b"), [5u8; 32]).unwrap_err(), ObjectError::InvalidPath);
    assert!(matches!(LisRoot::find(&FsPath::new("/")), Ok(RootLookup::Root)));
    match LisRoot::find(&FsPath::new("/a/b")) {
        Ok(RootLookup::Below(p)) => assert_eq!(p.to_string(), "a/b"),
        _ => panic!("expected a path below the root"),
    }
    assert_eq!(LisRoot::find(&FsPath::new("a/b")).unwrap_err(), ObjectError::InvalidPath);
}

#[test]
fn new_objects_mark_their_documents() {
    let (children, e) = Children::new(LisDoc::from_namespace_id([4u8; 32]));
    assert_eq!(e.len(), 1);
    assert_eq!(e[0].0 .0, b".type".to_vec());
    assert_eq!(e[0].1, b"children".to_vec());
    let (chunks, e) = Chunks::new(LisDoc::from_namespace_id([2u8; 32]));
    assert_eq!(chunks.size, 0);
    assert_eq!(e[0].1, b"chunks".to_vec());
    let (f, e) = LisFile::new(doc(), chunks, Metadata::new(LisDoc::from_namespace_id([3u8; 32]), ObjectKind::File, 8));
    assert_eq!(e.len(), 3);
    assert_eq!(e[0].0 .0, b".metadata".to_vec());
    assert_eq!(e[0].1, vec![3u8; 32]);
    assert_eq!(e[1].0 .0, b".chunks".to_vec());
    assert_eq!(e[1].1, vec![2u8; 32]);
    assert_eq!(e[2].1, b"file".to_vec());
    assert_eq!(f.doc.id(), [7u8; 32]);
    let (d, e) = LisDir::new(doc(), children, Metadata::new(LisDoc::from_namespace_id([3u8; 32]), ObjectKind::Dir, 0));
    assert_eq!(e[1].0 .0, b".children".to_vec());
    assert_eq!(e[1].1, vec![4u8; 32]);
    assert_eq!(e[2].1, b"dir".to_vec());
    let root = LisRoot { dir: d, inode_map: InodeMap::new() };
    assert_eq!(root.dir.children.doc.id(), [4u8; 32]);
    assert!(matches!(ObjectType::File(f), ObjectType::File(_)));
}

#[test]
fn loaded_objects_check_their_documents() {
    assert!(Children::from_namespace_id(doc(), DocType::ChildrenDoc).is_ok());
    assert_eq!(Children::from_namespace_id(doc(), DocType::DirDoc).unwrap_err(), ObjectError::WrongDocType);
    assert_eq!(Chunks::from_namespace_id(doc(), DocType::ChunksDoc).unwrap().size, 0);
    assert_eq!(Chunks::from_namespace_id(doc(), DocType::FileDoc).unwrap_err(), ObjectError::WrongDocType);
    let a = [1u8; 32];
    let b = [2u8; 32];
    assert_eq!(LisFile::links(DocType::FileDoc, Some(&a), Some(&b)), Ok(([1u8; 32], [2u8; 32])));
    assert_eq!(LisFile::links(DocType::DirDoc, Some(&a), Some(&b)), Err(ObjectError::WrongDocType));
    assert_eq!(LisFile::links(DocType::FileDoc, None, Some(&b)), Err(ObjectError::MissingKey));
    assert_eq!(LisFile::links(DocType::FileDoc, Some(&a[..4]), None), Err(ObjectError::InvalidId));
    assert_eq!(LisFile::links(DocType::FileDoc, Some(&a), None), Err(ObjectError::MissingKey));
    assert_eq!(LisDir::links(DocType::DirDoc, Some(&a), Some(&b[..31])), Err(ObjectError::InvalidId));
    assert_eq!(LisDir::links(DocType::DirDoc, Some(&b), Some(&a)), Ok(([2u8; 32], [1u8; 32])));
}

#[test]
fn directory_put_counts_items() {
    let (children, _) = Children::new(LisDoc::from_namespace_id([4u8; 32]));
    let (mut d, _) = LisDir::new(doc(), children, Metadata::new(doc(), ObjectKind::Dir, 0));
    let (k, v) = d.put(&FsPath::new("notes"), [9u8; 32]).unwrap();
    assert_eq!(k.0, b"notes".to_vec());
    assert_eq!(v, vec![9u8; 32]);
    assert_eq!(d.metadata.attrs, ObjectAttributes::DirAttributes { items: 1 });
    assert_eq!(d.put(&FsPath::new("a/b"), [9u8; 32]).unwrap_err(), ObjectError::InvalidPath);
    assert_eq!(d.metadata.attrs, ObjectAttributes::DirAttributes { items: 1 });
    let (children, _) = Children::new(doc());
    let (mut bad, _) = LisDir::new(doc(), children, Metadata::new(doc(), ObjectKind::File, 8));
    assert_eq!(bad.put(&FsPath::new("x"), [9u8; 32]).unwrap_err(), ObjectError::WrongAttributes);
}

#[test]
fn content_splicing() {
    assert_eq!(splice_content(b"hello", 1, b"EY"), b"hEYlo".to_vec());
    assert_eq!(splice_content(b"hi", 4, b"x"), vec![b'h', b'i', 0, 0, b'x']);
    assert_eq!(splice_content(b"", 0, b""), Vec::<u8>::new());
    assert_eq!(splice_content(b"abc", 2, b"CDE"), b"abCDE".to_vec());
}

#[test]
fn find_walks_names_down_to_a_directory() {
    let path = FsPath::new("a/b");
    match LisDir::find(&path, 0, ChildFound::Dir) {
        FindAction::Lookup(name) => assert_eq!(name, "a"),
        other => panic!("unexpected {:?}", other),
    }
    match LisDir::find(&path, 1, ChildFound::Dir) {
        FindAction::Lookup(name) => assert_eq!(name, "b"),
        other => panic!("unexpected {:?}", other),
    }
    assert!(matches!(LisDir::find(&path, 2, ChildFound::Dir), FindAction::FoundDir));
    assert!(matches!(LisDir::find(&FsPath::new(""), 0, ChildFound::Dir), FindAction::FoundDir));
}

#[test]
fn find_stops_at_files_missing_entries_and_odd_components() {
    let path = FsPath::new("a/b/c");
    assert!(matches!(LisDir::find(&path, 1, ChildFound::File), FindAction::FoundFile));
    assert!(matches!(LisDir::find(&path, 2, ChildFound::Absent), FindAction::NotFound));
    assert!(matches!(LisDir::find(&FsPath::new("../x"), 0, ChildFound::Dir), FindAction::InvalidComponent));
    assert!(matches!(LisDir::find(&FsPath::new("/x"), 0, ChildFound::Dir), FindAction::InvalidComponent));
    assert!(matches!(LisDir::find(&FsPath::new("./x"), 0, ChildFound::Dir), FindAction::InvalidComponent));
    match LisDir::find(&FsPath::new("./x"), 1, ChildFound::Dir) {
        FindAction::Lookup(name) => assert_eq!(name, "x"),
        other => panic!("unexpected {:?}", other),
    }
}
