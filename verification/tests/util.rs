use lis::path::FsPath;
use lis::util::{bytes_to_namespace_id, get_relative_path, namespace_id_to_bytes, split_path};

#[test]
fn test_get_relative_path() {
    assert_eq!(
        get_relative_path(&FsPath::new("/hey/there"), &FsPath::new("/hey")).map(|p| p.to_string()),
        Some(FsPath::new("there").to_string())
    );
    assert_eq!(
        get_relative_path(&FsPath::new("/this"), &FsPath::new("/")).map(|p| p.to_string()),
        Some(FsPath::new("this").to_string())
    );
    assert_eq!(get_relative_path(&FsPath::new("/a/b/c"), &FsPath::new("/d")).map(|p| p.to_string()), None,);
}

#[test]
fn split_path_first_and_rest() {
    let (next, rest) = split_path(&FsPath::new("/a/b")).unwrap();
    assert_eq!(next.to_string(), "/");
    assert_eq!(rest.map(|p| p.to_string()), Some("a/b".to_string()));
    let (next, rest) = split_path(&FsPath::new("a")).unwrap();
    assert_eq!(next.to_string(), "a");
    assert!(rest.is_none());
    assert!(split_path(&FsPath::new("")).is_none());
}

#[test]
fn paths_normalize_components() {
    assert_eq!(FsPath::new("/data//x/./y/").to_string(), "/data/x/y");
    assert_eq!(FsPath::new("./a").component_count(), 2);
    assert!(FsPath::new("/a/b").starts_with(&FsPath::new("/a")));
    assert!(!FsPath::new("/ab").starts_with(&FsPath::new("/a")));
    assert_eq!(FsPath::new("/a/b").parent().map(|p| p.to_string()), Some("/a".to_string()));
    assert!(FsPath::new("/").parent().is_none());
}

#[test]
fn namespace_id_bytes_round_trip() {
    let id = [5u8; 32];
    let bytes = lis::util::namespace_id_to_bytes(id);
    assert_eq!(bytes.len(), 32);
    assert_eq!(lis::util::bytes_to_namespace_id(&bytes), Ok(id));
    assert_eq!(lis::util::bytes_to_namespace_id(&bytes[..31]), Err(lis::util::NotANamespaceId));
}

#[test]
fn test_bytes_to_namespace_id() {
    let id: [u8; 32] = [
        3, 1, 4, 1, 5, 9, 2, 6, 5, 3, 5, 8, 9, 7, 9, 3, 2, 3, 8, 4, 6, 2, 6, 4, 3, 3, 8, 3, 2, 7, 9, 5,
    ];
    let bytes = namespace_id_to_bytes(id);
    let back = bytes_to_namespace_id(&bytes).unwrap();
    assert_eq!(id, back);
}
