//! Objects of the store: the metadata of files and directories, the chunks
//! a file's bytes are kept in, and the entries of a directory. What is read
//! from and written to the documents is computed here; the documents
//! themselves are read and written by the caller.

use vstd::prelude::*;
use vstd::utf8::{decode_utf8, encode_utf8, valid_utf8};
use vstd::string::*;
use crate::doc::{DocType, LisDoc};
use crate::path::{path_components, FsPath};
use crate::util::{bytes_to_namespace_id, namespace_id_to_bytes, utf8_text, Key};

verus! {

/// What kind of object a metadata document describes.
#[derive(Debug, Clone, Copy, PartialEq, Eq, Structural)]
pub enum ObjectKind {
    File,
    Dir,
}

/// The attributes a metadata document records.
#[derive(Debug, Clone, Copy, PartialEq, Eq, Structural)]
pub enum ObjectAttributes {
    FileAttributes { chunks: u64, chunk_size: u64 },
    DirAttributes { items: u64 },
}

/// Why an object cannot be read or changed.
#[derive(Debug, Clone, Copy, PartialEq, Eq, Structural)]
pub enum ObjectError {
    /// The document is not of the type expected
    WrongDocType,
    /// A key the document must have is missing
    MissingKey,
    /// The kind entry is not UTF-8 text
    InvalidKind,
    /// The kind is neither `file` nor `dir`
    UnknownKind,
    /// The attributes are not those of the kind of object expected
    WrongAttributes,
    /// An offset lies past the end of the file or of the chunk
    InvalidOffset,
    /// A path that must be one component, or absolute, is not
    InvalidPath,
    /// A stored document link is not the 32 bytes of a namespace identifier
    InvalidId,
}

/// The little-endian bytes of `x`.
pub open spec fn le_bytes(x: u64) -> Seq<u8> {
    Seq::new(8, |i: int| ((x >> (8 * i) as u64) & 0xff) as u8)
}

/// The big-endian bytes of `x`.
pub open spec fn be_bytes(x: u64) -> Seq<u8> {
    le_bytes(x).reverse()
}

/// `b` are the bytes of `x` in the byte order of some machine.
pub open spec fn native_bytes(b: Seq<u8>, x: u64) -> bool {
    b == le_bytes(x) || b == be_bytes(x)
}

/// `u64::to_ne_bytes`: the bytes of `x` in the machine's byte order, which
/// is little- or big-endian; which of the two is left unsaid.
#[verifier::external_body]
fn u64_to_ne_bytes(x: u64) -> (r: Vec<u8>)
    ensures
        native_bytes(r@, x),
{
    x.to_ne_bytes().to_vec()
}

/// `u64::from_ne_bytes`: the number whose bytes in the machine's byte
/// order, little- or big-endian, are `b`; which of the two is left unsaid.
#[verifier::external_body]
fn u64_from_ne_bytes(b: [u8; 8]) -> (r: u64)
    ensures
        native_bytes(b@, r),
{
    u64::from_ne_bytes(b)
}

/// The number in the first eight bytes of a stored value.
fn decode_u64(b: &[u8]) -> (r: u64)
    requires
        b@.len() >= 8,
    ensures
        native_bytes(b@.take(8), r),
{
    let a: [u8; 8] = [b[0], b[1], b[2], b[3], b[4], b[5], b[6], b[7]];
    proof {
        assert(a@ =~= b@.take(8));
    }
    u64_from_ne_bytes(a)
}

/// A new metadata record: `file` with no chunks of `chunk_size` bytes, or
/// `dir` with no items.
pub open spec fn fresh_attrs(kind: ObjectKind, chunk_size: u64) -> ObjectAttributes {
    match kind {
        ObjectKind::File => ObjectAttributes::FileAttributes { chunks: 0, chunk_size },
        ObjectKind::Dir => ObjectAttributes::DirAttributes { items: 0 },
    }
}

/// The kind text of a kind of object.
pub open spec fn kind_text(kind: ObjectKind) -> Seq<char> {
    match kind {
        ObjectKind::File => "file"@,
        ObjectKind::Dir => "dir"@,
    }
}

/// A stored value that holds a number: at least eight bytes.
pub open spec fn holds_number(v: Option<&[u8]>) -> bool {
    v matches Some(b) ==> b@.len() >= 8
}

/// The text of a stored kind entry, where it is UTF-8.
pub open spec fn kind_of(kind: Option<&[u8]>) -> Option<Seq<char>> {
    match kind {
        Some(b) => if valid_utf8(b@) {
            Some(decode_utf8(b@))
        } else {
            None
        },
        None => None,
    }
}

/// The outcome of reading a metadata document, but for the numbers: the
/// error, or the kind text.
pub open spec fn metadata_check(
    doc_type: DocType,
    kind: Option<&[u8]>,
    chunk_size: Option<&[u8]>,
    chunks: Option<&[u8]>,
    items: Option<&[u8]>,
) -> Result<Seq<char>, ObjectError> {
    if doc_type != DocType::MetadataDoc {
        Err(ObjectError::WrongDocType)
    } else if kind is None {
        Err(ObjectError::MissingKey)
    } else if kind_of(kind) is None {
        Err(ObjectError::InvalidKind)
    } else {
        let text = kind_of(kind).unwrap();
        if text == "file"@ {
            if chunk_size is None || chunks is None {
                Err(ObjectError::MissingKey)
            } else {
                Ok(text)
            }
        } else if text == "dir"@ {
            if items is None {
                Err(ObjectError::MissingKey)
            } else {
                Ok(text)
            }
        } else {
            Err(ObjectError::UnknownKind)
        }
    }
}

/// The metadata of a file or directory, kept in a document of its own.
#[derive(Debug)]
pub struct Metadata {
    pub doc: LisDoc,
    pub kind: String,
    pub attrs: ObjectAttributes,
}

impl Metadata {
    /// New metadata, kept in `doc`: a file with no chunks of `chunk_size`
    /// bytes, or a directory with no items.
    pub fn new(doc: LisDoc, kind: ObjectKind, chunk_size: u64) -> (m: Metadata)
        ensures
            m.doc == doc,
            m.kind@ == kind_text(kind),
            m.attrs == fresh_attrs(kind, chunk_size),
    {
        proof {
            reveal_strlit("file");
            reveal_strlit("dir");
        }
        match kind {
            ObjectKind::File => Metadata {
                doc,
                kind: String::from_str("file"),
                attrs: ObjectAttributes::FileAttributes { chunks: 0, chunk_size },
            },
            ObjectKind::Dir => Metadata {
                doc,
                kind: String::from_str("dir"),
                attrs: ObjectAttributes::DirAttributes { items: 0 },
            },
        }
    }

    /// The entries that saving the metadata writes to its document, in
    /// order: `kind` with the kind text, then `items` for a directory, or
    /// `chunks` and `chunk_size` for a file, each number in the machine's
    /// byte order.
    pub fn entries(&self) -> (r: Vec<(Key, Vec<u8>)>)
        ensures
            r@.len() >= 2,
            r@[0].0.0@ == encode_utf8("kind"@),
            r@[0].1@ == encode_utf8(self.kind@),
            match self.attrs {
                ObjectAttributes::DirAttributes { items } => {
                    &&& r@.len() == 2
                    &&& r@[1].0.0@ == encode_utf8("items"@)
                    &&& native_bytes(r@[1].1@, items)
                },
                ObjectAttributes::FileAttributes { chunks, chunk_size } => {
                    &&& r@.len() == 3
                    &&& r@[1].0.0@ == encode_utf8("chunks"@)
                    &&& native_bytes(r@[1].1@, chunks)
                    &&& r@[2].0.0@ == encode_utf8("chunk_size"@)
                    &&& native_bytes(r@[2].1@, chunk_size)
                },
            },
    {
        let mut r: Vec<(Key, Vec<u8>)> = Vec::new();
        let kind_bytes = Key::from_string(self.kind.clone()).into_bytes();
        r.push((Key::from_string(String::from_str("kind")), kind_bytes));
        match self.attrs {
            ObjectAttributes::DirAttributes { items } => {
                r.push((Key::from_string(String::from_str("items")), u64_to_ne_bytes(items)));
            },
            ObjectAttributes::FileAttributes { chunks, chunk_size } => {
                r.push((Key::from_string(String::from_str("chunks")), u64_to_ne_bytes(chunks)));
                r.push((Key::from_string(String::from_str("chunk_size")), u64_to_ne_bytes(chunk_size)));
            },
        }
        r
    }

    /// Reads metadata kept in `doc`, of type `doc_type`, from the values of
    /// its `kind`, `chunk_size`, `chunks` and `items` entries (`None` where
    /// absent). The document must be a metadata document whose kind is
    /// `file`, with chunk entries, or `dir`, with an item entry; each
    /// number is the first eight bytes of its value, in the machine's byte
    /// order.
    pub fn from_entries(
        doc: LisDoc,
        doc_type: DocType,
        kind: Option<&[u8]>,
        chunk_size: Option<&[u8]>,
        chunks: Option<&[u8]>,
        items: Option<&[u8]>,
    ) -> (r: Result<Metadata, ObjectError>)
        requires
            kind_of(kind) == Some("file"@) ==> holds_number(chunk_size) && holds_number(chunks),
            kind_of(kind) == Some("dir"@) ==> holds_number(items),
        ensures
            r is Ok <==> metadata_check(doc_type, kind, chunk_size, chunks, items) is Ok,
            r matches Err(e) ==> metadata_check(doc_type, kind, chunk_size, chunks, items) == Err::<Seq<char>, ObjectError>(e),
            r matches Ok(m) ==> {
                &&& m.doc == doc
                &&& Some(m.kind@) == kind_of(kind)
                &&& m.kind@ == "file"@ ==> (m.attrs matches ObjectAttributes::FileAttributes { chunks: n, chunk_size: s }
                    && native_bytes(chunks.unwrap()@.take(8), n) && native_bytes(chunk_size.unwrap()@.take(8), s))
                &&& m.kind@ == "dir"@ ==> (m.attrs matches ObjectAttributes::DirAttributes { items: n }
                    && native_bytes(items.unwrap()@.take(8), n))
            },
    {
        proof {
            reveal_strlit("file");
            reveal_strlit("dir");
            assert("file"@.len() != "dir"@.len());
        }
        if doc_type != DocType::MetadataDoc {
            return Err(ObjectError::WrongDocType);
        }
        let kind_bytes = match kind {
            Some(b) => b,
            None => {
                return Err(ObjectError::MissingKey);
            },
        };
        let text = match utf8_text(kind_bytes) {
            Some(t) => t,
            None => {
                return Err(ObjectError::InvalidKind);
            },
        };
        let file = String::from_str("file");
        let dir = String::from_str("dir");
        let attrs = if text == file {
            let chunk_size_bytes = match chunk_size {
                Some(b) => b,
                None => {
                    return Err(ObjectError::MissingKey);
                },
            };
            let chunk_size = decode_u64(chunk_size_bytes);
            let chunks_bytes = match chunks {
                Some(b) => b,
                None => {
                    return Err(ObjectError::MissingKey);
                },
            };
            let chunks = decode_u64(chunks_bytes);
            ObjectAttributes::FileAttributes { chunks, chunk_size }
        } else if text == dir {
            let items_bytes = match items {
                Some(b) => b,
                None => {
                    return Err(ObjectError::MissingKey);
                },
            };
            let items = decode_u64(items_bytes);
            ObjectAttributes::DirAttributes { items }
        } else {
            return Err(ObjectError::UnknownKind);
        };
        Ok(Metadata { doc, kind: text, attrs })
    }
}


impl Metadata {
    /// Counts one more item of a directory; the attributes of a file are
    /// refused.
    pub fn add_item(&mut self) -> (r: Result<(), ObjectError>)
        requires
            old(self).attrs matches ObjectAttributes::DirAttributes { items } ==> items < u64::MAX,
        ensures
            final(self).doc == old(self).doc,
            final(self).kind@ == old(self).kind@,
            match old(self).attrs {
                ObjectAttributes::DirAttributes { items } => {
                    &&& r is Ok
                    &&& final(self).attrs == ObjectAttributes::DirAttributes { items: (items + 1) as u64 }
                },
                ObjectAttributes::FileAttributes { .. } => {
                    &&& r == Err::<(), ObjectError>(ObjectError::WrongAttributes)
                    &&& final(self).attrs == old(self).attrs
                },
            },
    {
        match self.attrs {
            ObjectAttributes::DirAttributes { items } => {
                self.attrs = ObjectAttributes::DirAttributes { items: items + 1 };
                Ok(())
            },
            ObjectAttributes::FileAttributes { .. } => Err(ObjectError::WrongAttributes),
        }
    }

    /// The number of chunks of a file and their size; the attributes of a
    /// directory are refused.
    pub fn file_layout(&self) -> (r: Result<(u64, u64), ObjectError>)
        ensures
            match self.attrs {
                ObjectAttributes::FileAttributes { chunks, chunk_size } => r == Ok::<(u64, u64), ObjectError>((chunks, chunk_size)),
                ObjectAttributes::DirAttributes { .. } => r == Err::<(u64, u64), ObjectError>(ObjectError::WrongAttributes),
            },
    {
        match self.attrs {
            ObjectAttributes::FileAttributes { chunks, chunk_size } => Ok((chunks, chunk_size)),
            ObjectAttributes::DirAttributes { .. } => Err(ObjectError::WrongAttributes),
        }
    }
}

/// An entry of a document whose key and value are texts.
fn text_entry(key: &str, value: &str) -> (e: (Key, Vec<u8>))
    ensures
        e.0.0@ == encode_utf8(key@),
        e.1@ == encode_utf8(value@),
{
    (Key::from_string(String::from_str(key)), Key::from_string(String::from_str(value)).into_bytes())
}

/// An entry of a document that links to the document `id`.
fn link_entry(key: &str, id: [u8; 32]) -> (e: (Key, Vec<u8>))
    ensures
        e.0.0@ == encode_utf8(key@),
        e.1@ == id@,
{
    (Key::from_string(String::from_str(key)), namespace_id_to_bytes(id))
}

/// `e` is the entry with key `key` and text `value`.
pub open spec fn is_text_entry(e: (Key, Vec<u8>), key: Seq<char>, value: Seq<char>) -> bool {
    e.0.0@ == encode_utf8(key) && e.1@ == encode_utf8(value)
}

/// `e` is the entry with key `key` that links to the document `id`.
pub open spec fn is_link_entry(e: (Key, Vec<u8>), key: Seq<char>, id: Seq<u8>) -> bool {
    e.0.0@ == encode_utf8(key) && e.1@ == id
}

/// The document of a directory's entries: each maps the name of an entry to
/// the identifier of the entry's document.
#[derive(Debug, Clone, Copy)]
pub struct Children {
    pub doc: LisDoc,
}

impl Children {
    /// New children kept in `doc`, and the entry that marks the document:
    /// `.type` is `children`.
    pub fn new(doc: LisDoc) -> (r: (Children, Vec<(Key, Vec<u8>)>))
        ensures
            r.0.doc == doc,
            r.1@.len() == 1,
            is_text_entry(r.1@[0], ".type"@, "children"@),
    {
        let mut entries: Vec<(Key, Vec<u8>)> = Vec::new();
        entries.push(text_entry(".type", "children"));
        (Children { doc }, entries)
    }

    /// The children kept in `doc`, whose type is `doc_type`: refused unless
    /// it is a children document.
    pub fn from_namespace_id(doc: LisDoc, doc_type: DocType) -> (r: Result<Children, ObjectError>)
        ensures
            r is Ok <==> doc_type == DocType::ChildrenDoc,
            r matches Ok(c) ==> c.doc == doc,
            r matches Err(e) ==> e == ObjectError::WrongDocType,
    {
        if doc_type != DocType::ChildrenDoc {
            return Err(ObjectError::WrongDocType);
        }
        Ok(Children { doc })
    }
}

/// The document of a file's chunks, by index, and the number of chunks
/// written through it.
#[derive(Debug, Clone, Copy)]
pub struct Chunks {
    pub doc: LisDoc,
    pub size: u64,
}

impl Chunks {
    /// New chunks kept in `doc`, none yet, and the entry that marks the
    /// document: `.type` is `chunks`.
    pub fn new(doc: LisDoc) -> (r: (Chunks, Vec<(Key, Vec<u8>)>))
        ensures
            r.0.doc == doc,
            r.0.size == 0,
            r.1@.len() == 1,
            is_text_entry(r.1@[0], ".type"@, "chunks"@),
    {
        let mut entries: Vec<(Key, Vec<u8>)> = Vec::new();
        entries.push(text_entry(".type", "chunks"));
        (Chunks { doc, size: 0 }, entries)
    }

    /// The chunks kept in `doc`, whose type is `doc_type`, counted from
    /// none: refused unless it is a chunks document.
    pub fn from_namespace_id(doc: LisDoc, doc_type: DocType) -> (r: Result<Chunks, ObjectError>)
        ensures
            r is Ok <==> doc_type == DocType::ChunksDoc,
            r matches Ok(c) ==> c.doc == doc && c.size == 0,
            r matches Err(e) ==> e == ObjectError::WrongDocType,
    {
        if doc_type != DocType::ChunksDoc {
            return Err(ObjectError::WrongDocType);
        }
        Ok(Chunks { doc, size: 0 })
    }
}

/// The identifiers of the two documents a document links to, from its
/// type and the values of its two link entries: refused unless the type
/// is `expected`, where an entry is missing, or where it is not an
/// identifier; the first entry is checked first.
pub open spec fn links_of(doc_type: DocType, expected: DocType, first: Option<&[u8]>, second: Option<&[u8]>) -> Result<
    (Seq<u8>, Seq<u8>),
    ObjectError,
> {
    if doc_type != expected {
        Err(ObjectError::WrongDocType)
    } else if first is None {
        Err(ObjectError::MissingKey)
    } else if first.unwrap()@.len() != 32 {
        Err(ObjectError::InvalidId)
    } else if second is None {
        Err(ObjectError::MissingKey)
    } else if second.unwrap()@.len() != 32 {
        Err(ObjectError::InvalidId)
    } else {
        Ok((first.unwrap()@, second.unwrap()@))
    }
}

/// The identifier stored in a link entry.
fn link_id(v: Option<&[u8]>) -> (r: Result<[u8; 32], ObjectError>)
    ensures
        v is None ==> r == Err::<[u8; 32], ObjectError>(ObjectError::MissingKey),
        v matches Some(b) ==> if b@.len() == 32 {
            r matches Ok(id) && id@ == b@
        } else {
            r == Err::<[u8; 32], ObjectError>(ObjectError::InvalidId)
        },
{
    match v {
        None => Err(ObjectError::MissingKey),
        Some(b) => match bytes_to_namespace_id(b) {
            Ok(id) => Ok(id),
            Err(_) => Err(ObjectError::InvalidId),
        },
    }
}

/// The two links of a document of type `expected`: see `links_of`.
fn read_links(doc_type: DocType, expected: DocType, first: Option<&[u8]>, second: Option<&[u8]>) -> (r: Result<
    ([u8; 32], [u8; 32]),
    ObjectError,
>)
    ensures
        r is Ok <==> links_of(doc_type, expected, first, second) is Ok,
        r matches Err(e) ==> links_of(doc_type, expected, first, second) == Err::<(Seq<u8>, Seq<u8>), ObjectError>(e),
        r matches Ok(ids) ==> links_of(doc_type, expected, first, second) == Ok::<(Seq<u8>, Seq<u8>), ObjectError>((ids.0@, ids.1@)),
{
    if doc_type != expected {
        return Err(ObjectError::WrongDocType);
    }
    let a = match link_id(first) {
        Ok(id) => id,
        Err(e) => {
            return Err(e);
        },
    };
    let b = match link_id(second) {
        Ok(id) => id,
        Err(e) => {
            return Err(e);
        },
    };
    Ok((a, b))
}

/// A file: its document, which links to the documents of its chunks and of
/// its metadata.
#[derive(Debug)]
pub struct LisFile {
    pub doc: LisDoc,
    pub chunks: Chunks,
    pub metadata: Metadata,
}

impl LisFile {
    /// A new file kept in `doc`, with its chunks and metadata, and the
    /// entries written to its document: `.metadata` and `.chunks` link to
    /// their documents, and `.type` is `file`.
    pub fn new(doc: LisDoc, chunks: Chunks, metadata: Metadata) -> (r: (LisFile, Vec<(Key, Vec<u8>)>))
        ensures
            r.0.doc == doc,
            r.0.chunks == chunks,
            r.0.metadata == metadata,
            r.1@.len() == 3,
            is_link_entry(r.1@[0], ".metadata"@, metadata.doc.id_spec()),
            is_link_entry(r.1@[1], ".chunks"@, chunks.doc.id_spec()),
            is_text_entry(r.1@[2], ".type"@, "file"@),
    {
        let mut entries: Vec<(Key, Vec<u8>)> = Vec::new();
        entries.push(link_entry(".metadata", metadata.doc.id()));
        entries.push(link_entry(".chunks", chunks.doc.id()));
        entries.push(text_entry(".type", "file"));
        (LisFile { doc, chunks, metadata }, entries)
    }

    /// The identifiers of the chunks and metadata documents of a file
    /// document of type `doc_type` whose `.chunks` and `.metadata` entries
    /// hold `chunks` and `metadata`: see `links_of`.
    pub fn links(doc_type: DocType, chunks: Option<&[u8]>, metadata: Option<&[u8]>) -> (r: Result<
        ([u8; 32], [u8; 32]),
        ObjectError,
    >)
        ensures
            r is Ok <==> links_of(doc_type, DocType::FileDoc, chunks, metadata) is Ok,
            r matches Err(e) ==> links_of(doc_type, DocType::FileDoc, chunks, metadata) == Err::<(Seq<u8>, Seq<u8>), ObjectError>(e),
            r matches Ok(ids) ==> links_of(doc_type, DocType::FileDoc, chunks, metadata) == Ok::<(Seq<u8>, Seq<u8>), ObjectError>((ids.0@, ids.1@)),
    {
        read_links(doc_type, DocType::FileDoc, chunks, metadata)
    }
}

/// A directory: its document, which links to the documents of its entries
/// and of its metadata.
#[derive(Debug)]
pub struct LisDir {
    pub doc: LisDoc,
    pub children: Children,
    pub metadata: Metadata,
}

impl LisDir {
    /// A new directory kept in `doc`, with its children and metadata, and
    /// the entries written to its document: `.metadata` and `.children`
    /// link to their documents, and `.type` is `dir`.
    pub fn new(doc: LisDoc, children: Children, metadata: Metadata) -> (r: (LisDir, Vec<(Key, Vec<u8>)>))
        ensures
            r.0.doc == doc,
            r.0.children == children,
            r.0.metadata == metadata,
            r.1@.len() == 3,
            is_link_entry(r.1@[0], ".metadata"@, metadata.doc.id_spec()),
            is_link_entry(r.1@[1], ".children"@, children.doc.id_spec()),
            is_text_entry(r.1@[2], ".type"@, "dir"@),
    {
        let mut entries: Vec<(Key, Vec<u8>)> = Vec::new();
        entries.push(link_entry(".metadata", metadata.doc.id()));
        entries.push(link_entry(".children", children.doc.id()));
        entries.push(text_entry(".type", "dir"));
        (LisDir { doc, children, metadata }, entries)
    }

    /// The identifiers of the children and metadata documents of a
    /// directory document of type `doc_type` whose `.children` and
    /// `.metadata` entries hold `children` and `metadata`: see `links_of`.
    pub fn links(doc_type: DocType, children: Option<&[u8]>, metadata: Option<&[u8]>) -> (r: Result<
        ([u8; 32], [u8; 32]),
        ObjectError,
    >)
        ensures
            r is Ok <==> links_of(doc_type, DocType::DirDoc, children, metadata) is Ok,
            r matches Err(e) ==> links_of(doc_type, DocType::DirDoc, children, metadata) == Err::<(Seq<u8>, Seq<u8>), ObjectError>(e),
            r matches Ok(ids) ==> links_of(doc_type, DocType::DirDoc, children, metadata) == Ok::<(Seq<u8>, Seq<u8>), ObjectError>((ids.0@, ids.1@)),
    {
        read_links(doc_type, DocType::DirDoc, children, metadata)
    }
}

/// The map of inodes of the store; it holds nothing yet.
#[derive(Debug)]
pub struct InodeMap {}

impl InodeMap {
    pub fn new() -> (m: InodeMap)
        ensures
            m == (InodeMap {}),
    {
        InodeMap {}
    }
}

/// A file or a directory.
#[derive(Debug)]
pub enum ObjectType {
    File(LisFile),
    Dir(LisDir),
}

/// The root of the store: the root directory and the inode map.
#[derive(Debug)]
pub struct LisRoot {
    pub dir: LisDir,
    pub inode_map: InodeMap,
}

/// The chunk whose length the size of a file with `chunks` chunks depends
/// on: the last one, if there is any.
pub fn last_chunk_index(chunks: u64) -> (r: Option<u64>)
    ensures
        r == if chunks == 0 {
            None::<u64>
        } else {
            Some((chunks - 1) as u64)
        },
{
    if chunks == 0 {
        None
    } else {
        Some(chunks - 1)
    }
}

/// The size of a file with attributes `attrs` whose last chunk, if it has
/// chunks, holds `last_chunk_len` bytes (`None` if it could not be read):
/// no chunks make an empty file; else all chunks but the last are full.
/// The attributes of a directory, and a last chunk that could not be read,
/// are refused.
pub open spec fn file_size_spec(attrs: ObjectAttributes, last_chunk_len: Option<u64>) -> Result<u64, ObjectError> {
    match attrs {
        ObjectAttributes::DirAttributes { .. } => Err(ObjectError::WrongAttributes),
        ObjectAttributes::FileAttributes { chunks, chunk_size } => if chunks == 0 {
            Ok(0)
        } else {
            match last_chunk_len {
                None => Err(ObjectError::MissingKey),
                Some(n) => Ok(((chunks - 1) * chunk_size + n) as u64),
            }
        },
    }
}

/// The chunks `start..=end` a read of `size` bytes at `offset` takes, of a
/// file of `file_size` bytes in `chunks` chunks of `chunk_size` bytes:
/// nothing for an empty read; refused at an offset past the end; the last
/// chunk is at most the file's last.
pub open spec fn read_span_spec(offset: u64, size: u64, chunks: u64, chunk_size: u64, file_size: u64) -> Result<
    Option<(u64, u64)>,
    ObjectError,
> {
    if size == 0 {
        Ok(None)
    } else if offset > file_size {
        Err(ObjectError::InvalidOffset)
    } else {
        let end = ((offset + size - 1) / chunk_size as int) as u64;
        Ok(Some((offset / chunk_size, if end >= chunks { if chunks == 0 { 0 } else { (chunks - 1) as u64 } } else { end })))
    }
}

/// The chunks a read of `size` bytes at `offset` of a file takes.
fn read_span(offset: u64, size: u64, chunks: u64, chunk_size: u64, file_size: u64) -> (r: Result<
    Option<(u64, u64)>,
    ObjectError,
>)
    requires
        chunk_size > 0,
        offset + size <= u64::MAX,
    ensures
        r == read_span_spec(offset, size, chunks, chunk_size, file_size),
{
    if size == 0 {
        return Ok(None);
    }
    if offset > file_size {
        return Err(ObjectError::InvalidOffset);
    }
    let start_chunk = offset / chunk_size;
    let mut end_chunk = (offset + size - 1) / chunk_size;
    if end_chunk >= chunks {
        end_chunk = if chunks == 0 { 0 } else { chunks - 1 };
    }
    Ok(Some((start_chunk, end_chunk)))
}

/// The `size` bytes wanted of the chunks read for a read at `offset`: the
/// chunks begin at the start of the chunk that holds `offset`.
pub fn trim_read(bytes: &[u8], offset: u64, size: u64, chunk_size: u64) -> (r: Vec<u8>)
    requires
        chunk_size > 0,
        offset % chunk_size + size <= bytes@.len(),
    ensures
        r@ == bytes@.subrange((offset % chunk_size) as int, (offset % chunk_size + size) as int),
{
    let n = bytes.len();
    let first_byte = (offset % chunk_size) as usize;
    let last_byte = first_byte + size as usize;
    let mut r: Vec<u8> = Vec::new();
    let mut i: usize = first_byte;
    while i < last_byte
        invariant
            n == bytes@.len(),
            first_byte <= i <= last_byte <= n,
            r@ == bytes@.subrange(first_byte as int, i as int),
        decreases last_byte - i,
    {
        r.push(bytes[i]);
        i = i + 1;
        proof {
            assert(r@ =~= bytes@.subrange(first_byte as int, i as int));
        }
    }
    r
}

/// One chunk write of a file write: bytes `from..to` of the data go to
/// chunk `index`, starting at `chunk_offset` in it; `extends` says the
/// chunk is past the ones the file had.
#[derive(Debug, Clone, Copy, PartialEq, Eq, Structural)]
pub struct ChunkWrite {
    pub index: u64,
    pub chunk_offset: u64,
    pub from: u64,
    pub to: u64,
    pub extends: bool,
}

/// The chunk write for chunk `i` of a write of `len` bytes at `offset`,
/// the first chunk written being `start`.
pub open spec fn chunk_write_at(offset: u64, len: u64, chunk_size: u64, chunk_count: u64, start: int, i: int) -> ChunkWrite {
    ChunkWrite {
        index: i as u64,
        chunk_offset: if i == start { offset } else { 0 },
        from: (chunk_size * i) as u64,
        to: if chunk_size * (i + 1) <= len { (chunk_size * (i + 1)) as u64 } else { len },
        extends: i >= chunk_count,
    }
}

/// A write of `len` bytes at `offset` of a file of `file_size` bytes kept in
/// `chunk_count` chunks of `chunk_size` bytes is refused: at an offset past
/// the end of the file, or in a chunk past the chunks there are.
pub open spec fn write_refused(offset: u64, len: u64, chunk_size: u64, chunk_count: u64, file_size: u64) -> bool {
    len > 0 && (offset > file_size || offset / chunk_size > chunk_count)
}

/// The chunk writes of a write of `len` bytes at `offset` of a file of
/// `file_size` bytes kept in `chunk_count` chunks of `chunk_size` bytes:
/// one for each chunk from the one that holds `offset` to the one that
/// holds the last byte written, in order. The bytes for chunk `i` are taken
/// from `chunk_size * i` of the data, and the first chunk is written from
/// `offset` on.
fn plan_write(offset: u64, len: u64, chunk_size: u64, chunk_count: u64, file_size: u64) -> (r: Result<
    Vec<ChunkWrite>,
    ObjectError,
>)
    requires
        chunk_size > 0,
        offset + len <= u64::MAX,
        len > 0 ==> chunk_size * ((offset + len - 1) / chunk_size as int + 1) <= u64::MAX,
        len > 0 ==> chunk_size * ((offset + len - 1) / chunk_size as int) <= len,
    ensures
        r is Err <==> write_refused(offset, len, chunk_size, chunk_count, file_size),
        r matches Err(e) ==> e == ObjectError::InvalidOffset,
        r matches Ok(plan) ==> {
            let start = offset as int / chunk_size as int;
            let end = (offset + len - 1) / chunk_size as int;
            &&& len == 0 ==> plan@.len() == 0
            &&& len > 0 ==> plan@.len() == end - start + 1
            &&& forall|k: int| 0 <= k < plan@.len() ==> #[trigger] plan@[k] == chunk_write_at(offset, len, chunk_size, chunk_count, start, start + k)
        },
{
    let mut plan: Vec<ChunkWrite> = Vec::new();
    if len == 0 {
        return Ok(plan);
    }
    if offset > file_size {
        return Err(ObjectError::InvalidOffset);
    }
    let start_chunk = offset / chunk_size;
    if start_chunk > chunk_count {
        return Err(ObjectError::InvalidOffset);
    }
    let end_chunk = (offset + len - 1) / chunk_size;
    proof {
        assert(start_chunk <= end_chunk) by (nonlinear_arith)
            requires
                start_chunk == offset as int / chunk_size as int,
                end_chunk == (offset + len - 1) / chunk_size as int,
                len > 0,
                chunk_size > 0;
        assert(chunk_size * end_chunk <= chunk_size * (end_chunk + 1)) by (nonlinear_arith)
            requires
                chunk_size > 0;
    }
    let stop = end_chunk + 1;
    let mut i = start_chunk;
    while i < stop
        invariant
            start_chunk <= i <= stop,
            stop == end_chunk + 1,
            start_chunk == offset as int / chunk_size as int,
            end_chunk == (offset + len - 1) / chunk_size as int,
            chunk_size > 0,
            chunk_size * (end_chunk + 1) <= u64::MAX,
            chunk_size * end_chunk <= len,
            plan@.len() == i - start_chunk,
            forall|k: int| 0 <= k < plan@.len() ==> #[trigger] plan@[k] == chunk_write_at(offset, len, chunk_size, chunk_count, start_chunk as int, start_chunk + k),
        decreases stop - i,
    {
        proof {
            assert(chunk_size * (i + 1) <= chunk_size * (end_chunk + 1)) by (nonlinear_arith)
                requires
                    i <= end_chunk,
                    chunk_size > 0;
            assert(chunk_size * i <= chunk_size * end_chunk) by (nonlinear_arith)
                requires
                    i <= end_chunk,
                    chunk_size > 0;
        }
        let next = chunk_size * (i + 1);
        let last_byte_in_chunk = if next <= len { next } else { len };
        let chunk_offset = if i == start_chunk { offset } else { 0 };
        plan.push(ChunkWrite { index: i, chunk_offset, from: chunk_size * i, to: last_byte_in_chunk, extends: i >= chunk_count });
        i = i + 1;
    }
    Ok(plan)
}

/// A read of `size` bytes at `offset` of a file with attributes `attrs`
/// and `file_size` bytes: nothing for an empty read; the attributes of a
/// directory are refused; else see `read_span_spec`.
pub open spec fn file_read_spec(attrs: ObjectAttributes, offset: u64, size: u64, file_size: u64) -> Result<
    Option<(u64, u64)>,
    ObjectError,
> {
    if size == 0 {
        Ok(None)
    } else {
        match attrs {
            ObjectAttributes::DirAttributes { .. } => Err(ObjectError::WrongAttributes),
            ObjectAttributes::FileAttributes { chunks, chunk_size } => read_span_spec(offset, size, chunks, chunk_size, file_size),
        }
    }
}

/// A write of `len` bytes at `offset` of a file of `file_size` bytes is
/// refused, and with what: nothing is refused for an empty write; an offset
/// past the end first; then the attributes of a directory; then a first
/// chunk past the `chunk_count` chunks written.
pub open spec fn file_write_refusal(attrs: ObjectAttributes, chunk_count: u64, offset: u64, len: u64, file_size: u64) -> Option<ObjectError> {
    if len == 0 {
        None
    } else if offset > file_size {
        Some(ObjectError::InvalidOffset)
    } else {
        match attrs {
            ObjectAttributes::DirAttributes { .. } => Some(ObjectError::WrongAttributes),
            ObjectAttributes::FileAttributes { chunk_size, .. } => if offset / chunk_size > chunk_count {
                Some(ObjectError::InvalidOffset)
            } else {
                None
            },
        }
    }
}

impl LisFile {
    /// The size of the file, its last chunk, if it has chunks, holding
    /// `last_chunk_len` bytes (`None` if it could not be read; which chunk
    /// that is `last_chunk_index` says): see `file_size_spec`.
    pub fn size(&self, last_chunk_len: Option<u64>) -> (r: Result<u64, ObjectError>)
        requires
            self.metadata.attrs matches ObjectAttributes::FileAttributes { chunks, chunk_size } ==> (chunks > 0
                && last_chunk_len is Some ==> (chunks - 1) * chunk_size + last_chunk_len.unwrap() <= u64::MAX),
        ensures
            r == file_size_spec(self.metadata.attrs, last_chunk_len),
    {
        match self.metadata.attrs {
            ObjectAttributes::DirAttributes { .. } => Err(ObjectError::WrongAttributes),
            ObjectAttributes::FileAttributes { chunks, chunk_size } => {
                if chunks == 0 {
                    return Ok(0);
                }
                match last_chunk_len {
                    None => Err(ObjectError::MissingKey),
                    Some(n) => {
                        proof {
                            assert((chunks - 1) * chunk_size <= (chunks - 1) * chunk_size + n);
                        }
                        Ok((chunks - 1) * chunk_size + n)
                    },
                }
            },
        }
    }

    /// The chunks `start..=end` a read of `size` bytes at `offset` takes,
    /// the file holding `file_size` bytes (see `size`): see
    /// `file_read_spec`. The bytes wanted of them are cut out by
    /// `trim_read`.
    pub fn read(&self, offset: u64, size: u64, file_size: u64) -> (r: Result<Option<(u64, u64)>, ObjectError>)
        requires
            size > 0 ==> (self.metadata.attrs matches ObjectAttributes::FileAttributes { chunk_size, .. } ==> chunk_size > 0),
            offset + size <= u64::MAX,
        ensures
            r == file_read_spec(self.metadata.attrs, offset, size, file_size),
    {
        if size == 0 {
            return Ok(None);
        }
        match self.metadata.attrs {
            ObjectAttributes::DirAttributes { .. } => Err(ObjectError::WrongAttributes),
            ObjectAttributes::FileAttributes { chunks, chunk_size } => read_span(offset, size, chunks, chunk_size, file_size),
        }
    }

    /// The chunk writes of a write of `len` bytes at `offset`, the file
    /// holding `file_size` bytes (see `size`): refused as
    /// `file_write_refusal` says; else one for each chunk from the one that
    /// holds `offset` to the one that holds the last byte written, in
    /// order (see `chunk_write_at`), counted against the chunks written
    /// through `self.chunks`. A chunk write that extends the file is
    /// counted by `add_chunk`, and its bytes are made by `Chunks::write`.
    pub fn write(&self, offset: u64, len: u64, file_size: u64) -> (r: Result<Vec<ChunkWrite>, ObjectError>)
        requires
            offset + len <= u64::MAX,
            len > 0 && offset <= file_size ==> (self.metadata.attrs matches ObjectAttributes::FileAttributes { chunk_size, .. } ==> {
                &&& chunk_size > 0
                &&& chunk_size * ((offset + len - 1) / chunk_size as int + 1) <= u64::MAX
                &&& chunk_size * ((offset + len - 1) / chunk_size as int) <= len
            }),
        ensures
            r is Err <==> file_write_refusal(self.metadata.attrs, self.chunks.size, offset, len, file_size) is Some,
            r matches Err(e) ==> file_write_refusal(self.metadata.attrs, self.chunks.size, offset, len, file_size) == Some(e),
            r matches Ok(plan) ==> {
                &&& len == 0 ==> plan@.len() == 0
                &&& len > 0 ==> (self.metadata.attrs matches ObjectAttributes::FileAttributes { chunk_size, .. } && {
                    let start = offset as int / chunk_size as int;
                    let end = (offset + len - 1) / chunk_size as int;
                    &&& plan@.len() == end - start + 1
                    &&& forall|k: int| 0 <= k < plan@.len() ==> #[trigger] plan@[k] == chunk_write_at(offset, len, chunk_size, self.chunks.size, start, start + k)
                })
            },
    {
        if len == 0 {
            return Ok(Vec::new());
        }
        if offset > file_size {
            return Err(ObjectError::InvalidOffset);
        }
        match self.metadata.attrs {
            ObjectAttributes::DirAttributes { .. } => Err(ObjectError::WrongAttributes),
            ObjectAttributes::FileAttributes { chunk_size, .. } => plan_write(offset, len, chunk_size, self.chunks.size, file_size),
        }
    }

    /// Counts a chunk that a write adds past the file's end: one more chunk
    /// written through `self.chunks`, and, unless its metadata holds a
    /// directory's attributes (refused), one more in the metadata.
    pub fn add_chunk(&mut self) -> (r: Result<(), ObjectError>)
        requires
            old(self).chunks.size < u64::MAX,
            old(self).metadata.attrs matches ObjectAttributes::FileAttributes { chunks, .. } ==> chunks < u64::MAX,
        ensures
            final(self).doc == old(self).doc,
            final(self).chunks.doc == old(self).chunks.doc,
            final(self).chunks.size == old(self).chunks.size + 1,
            final(self).metadata.doc == old(self).metadata.doc,
            final(self).metadata.kind@ == old(self).metadata.kind@,
            match old(self).metadata.attrs {
                ObjectAttributes::FileAttributes { chunks, chunk_size } => r is Ok
                    && final(self).metadata.attrs == ObjectAttributes::FileAttributes { chunks: (chunks + 1) as u64, chunk_size },
                ObjectAttributes::DirAttributes { .. } => r == Err::<(), ObjectError>(ObjectError::WrongAttributes)
                    && final(self).metadata.attrs == old(self).metadata.attrs,
            },
    {
        self.chunks.size = self.chunks.size + 1;
        match self.metadata.attrs {
            ObjectAttributes::FileAttributes { chunks, chunk_size } => {
                self.metadata.attrs = ObjectAttributes::FileAttributes { chunks: chunks + 1, chunk_size };
                Ok(())
            },
            ObjectAttributes::DirAttributes { .. } => Err(ObjectError::WrongAttributes),
        }
    }
}

/// A chunk after `bytes` are written into it at `chunk_offset`: what it
/// held before the offset, the bytes, and what it held after them.
pub open spec fn patched_chunk(existing: Seq<u8>, chunk_offset: int, bytes: Seq<u8>) -> Seq<u8> {
    let end = chunk_offset + bytes.len();
    existing.take(chunk_offset) + bytes + if existing.len() > end {
        existing.skip(end)
    } else {
        Seq::<u8>::empty()
    }
}

/// What is written into a chunk is read back from it: the bytes of the
/// patched chunk at `chunk_offset..chunk_offset + bytes.len()` are `bytes`,
/// and those before the offset are the chunk's own.
pub proof fn lemma_patch_reads_back(existing: Seq<u8>, chunk_offset: int, bytes: Seq<u8>)
    requires
        0 <= chunk_offset <= existing.len(),
    ensures
        patched_chunk(existing, chunk_offset, bytes).subrange(chunk_offset, chunk_offset + bytes.len()) == bytes,
        patched_chunk(existing, chunk_offset, bytes).take(chunk_offset) == existing.take(chunk_offset),
{
    let p = patched_chunk(existing, chunk_offset, bytes);
    assert(p.subrange(chunk_offset, chunk_offset + bytes.len()) =~= bytes);
    assert(p.take(chunk_offset) =~= existing.take(chunk_offset));
}

impl Chunks {
/// The chunk's new bytes when `bytes` are written into it at
/// `chunk_offset`, `existing` being what it held (empty for a chunk not
/// yet stored): its other bytes are kept; an offset past the chunk's end
/// is refused.
pub fn write(existing: &[u8], chunk_offset: u64, bytes: &[u8]) -> (r: Result<Vec<u8>, ObjectError>)
    ensures
        r is Err <==> chunk_offset > existing@.len(),
        r matches Err(e) ==> e == ObjectError::InvalidOffset,
        r matches Ok(v) ==> v@ == patched_chunk(existing@, chunk_offset as int, bytes@),
{
    if chunk_offset > existing.len() as u64 {
        return Err(ObjectError::InvalidOffset);
    }
    let off = chunk_offset as usize;
    let mut v: Vec<u8> = Vec::new();
    let mut i: usize = 0;
    while i < off
        invariant
            i <= off <= existing@.len(),
            v@ == existing@.take(i as int),
        decreases off - i,
    {
        v.push(existing[i]);
        i = i + 1;
        proof {
            assert(v@ =~= existing@.take(i as int));
        }
    }
    let mut j: usize = 0;
    while j < bytes.len()
        invariant
            off <= existing@.len(),
            j <= bytes@.len(),
            v@ == existing@.take(off as int) + bytes@.take(j as int),
        decreases bytes@.len() - j,
    {
        v.push(bytes[j]);
        j = j + 1;
        proof {
            assert(v@ =~= existing@.take(off as int) + bytes@.take(j as int));
        }
    }
    proof {
        assert(bytes@.take(bytes@.len() as int) =~= bytes@);
    }
    let ghost head = v@;
    if existing.len() - off > bytes.len() {
        let mut k: usize = off + bytes.len();
        while k < existing.len()
            invariant
                off + bytes@.len() <= k <= existing@.len(),
                v@ == head + existing@.subrange(off + bytes@.len(), k as int),
            decreases existing@.len() - k,
        {
            v.push(existing[k]);
            k = k + 1;
            proof {
                assert(v@ =~= head + existing@.subrange(off + bytes@.len(), k as int));
            }
        }
        proof {
            assert(existing@.subrange(off + bytes@.len(), existing@.len() as int) =~= existing@.skip(off + bytes@.len()));
        }
    } else {
        proof {
            assert(v@ =~= head + Seq::<u8>::empty());
        }
    }
    Ok(v)
}
}

/// File content after `data` is written at `offset`: grown with zeros to
/// reach the end of the write where it is shorter.
pub open spec fn spliced(content: Seq<u8>, offset: int, data: Seq<u8>) -> Seq<u8> {
    let len = if content.len() >= offset + data.len() { content.len() as int } else { offset + data.len() };
    Seq::new(
        len as nat,
        |i: int|
            if offset <= i < offset + data.len() {
                data[i - offset]
            } else if i < content.len() {
                content[i]
            } else {
                0u8
            },
    )
}

/// The content of a file after writing `data` at `offset` of `content`.
pub fn splice_content(content: &[u8], offset: usize, data: &[u8]) -> (r: Vec<u8>)
    requires
        offset + data@.len() <= usize::MAX,
    ensures
        r@ == spliced(content@, offset as int, data@),
{
    let required_length = offset + data.len();
    let mut r: Vec<u8> = Vec::new();
    let mut i: usize = 0;
    while i < content.len()
        invariant
            i <= content@.len(),
            r@ == content@.take(i as int),
        decreases content@.len() - i,
    {
        r.push(content[i]);
        i = i + 1;
        proof {
            assert(r@ =~= content@.take(i as int));
        }
    }
    // make sure it has enough room
    while r.len() < required_length
        invariant
            required_length == offset + data@.len(),
            r@.len() >= content@.len(),
            r@.len() <= if content@.len() >= required_length { content@.len() as int } else { required_length as int },
            r@.take(content@.len() as int) == content@,
            forall|j: int| content@.len() <= j < r@.len() ==> #[trigger] r@[j] == 0u8,
        decreases required_length - r@.len(),
    {
        let ghost before = r@;
        r.push(0u8);
        proof {
            assert(r@.take(content@.len() as int) =~= before.take(content@.len() as int));
        }
    }
    let ghost grown = r@;
    let mut k: usize = 0;
    while k < data.len()
        invariant
            k <= data@.len(),
            offset + data@.len() <= usize::MAX,
            r@.len() == grown.len(),
            grown.len() >= offset + data@.len(),
            grown.len() == if content@.len() >= offset + data@.len() { content@.len() as int } else { offset + data@.len() },
            grown.take(content@.len() as int) == content@,
            grown.len() >= content@.len(),
            forall|j: int| content@.len() <= j < grown.len() ==> #[trigger] grown[j] == 0u8,
            forall|j: int| 0 <= j < r@.len() ==> #[trigger] r@[j] == if offset <= j < offset + k {
                data@[j - offset]
            } else {
                grown[j]
            },
        decreases data@.len() - k,
    {
        r.set(offset + k, data[k]);
        k = k + 1;
    }
    proof {
        assert forall|j: int| 0 <= j < r@.len() implies #[trigger] r@[j] == spliced(content@, offset as int, data@)[j] by {
            if !(offset <= j < offset + data@.len()) && j < content@.len() {
                assert(grown[j] == grown.take(content@.len() as int)[j]);
            }
        }
        assert(r@ =~= spliced(content@, offset as int, data@));
    }
    r
}

/// The paths of the entries of a directory whose keys are the UTF-8 texts
/// `texts`: those not beginning with `.` (such as `.type`).
pub open spec fn visible_paths(texts: Seq<Seq<char>>) -> Seq<Seq<Seq<char>>>
    decreases texts.len(),
{
    if texts.len() == 0 {
        Seq::empty()
    } else {
        let prev = visible_paths(texts.drop_last());
        let t = texts.last();
        if t.len() > 0 && t[0] == '.' {
            prev
        } else {
            prev.push(path_components(t))
        }
    }
}

/// The texts of some UTF-8 keys.
pub open spec fn key_texts(keys: Seq<Vec<u8>>) -> Seq<Seq<char>> {
    keys.map_values(|k: Vec<u8>| decode_utf8(k@))
}

impl Children {
/// The paths of a directory's entries, from the keys of the children
/// document, in order; keys beginning with `.` name the document's own
/// entries and are left out.
pub fn entries(keys: &Vec<Vec<u8>>) -> (r: Vec<FsPath>)
    requires
        forall|i: int| 0 <= i < keys@.len() ==> valid_utf8(#[trigger] keys@[i]@),
    ensures
        r@.map_values(|p: FsPath| p@) == visible_paths(key_texts(keys@)),
{
    let mut r: Vec<FsPath> = Vec::new();
    let mut i: usize = 0;
    while i < keys.len()
        invariant
            i <= keys@.len(),
            forall|j: int| 0 <= j < keys@.len() ==> valid_utf8(#[trigger] keys@[j]@),
            r@.map_values(|p: FsPath| p@) == visible_paths(key_texts(keys@.take(i as int))),
        decreases keys@.len() - i,
    {
        let text = match utf8_text(keys[i].as_slice()) {
            Some(t) => t,
            None => String::new(),
        };
        proof {
            assert(keys@.take(i + 1).drop_last() =~= keys@.take(i as int));
            assert(key_texts(keys@.take(i + 1)).drop_last() =~= key_texts(keys@.take(i as int)));
            assert(key_texts(keys@.take(i + 1)).last() == text@);
        }
        let hidden = text.as_str().unicode_len() > 0 && text.as_str().get_char(0) == '.';
        if !hidden {
            let ghost before = r@;
            let p = FsPath::new(text.as_str());
            r.push(p);
            proof {
                assert(r@.map_values(|p: FsPath| p@) =~= before.map_values(|p: FsPath| p@).push(p@));
            }
        }
        i = i + 1;
    }
    proof {
        assert(keys@.take(keys@.len() as int) =~= keys@);
    }
    r
}

/// The key a directory's entry for `path` is looked up under: the text of
/// `path`, which must be a single component.
pub fn get(path: &FsPath) -> (r: Result<Key, ObjectError>)
    ensures
        r is Err <==> path@.len() != 1,
        r matches Err(e) ==> e == ObjectError::InvalidPath,
        r matches Ok(k) ==> k.0@ == encode_utf8(crate::path::render(path@)),
{
    if path.component_count() != 1 {
        return Err(ObjectError::InvalidPath);
    }
    Ok(Key::from_path(path))
}

/// The entry that putting object `object_id` at `path` in a directory
/// stores: under the key of `path` (see `get`), the identifier's bytes.
pub fn put(path: &FsPath, object_id: [u8; 32]) -> (r: Result<(Key, Vec<u8>), ObjectError>)
    ensures
        r is Err <==> path@.len() != 1,
        r matches Err(e) ==> e == ObjectError::InvalidPath,
        r matches Ok(e) ==> e.0.0@ == encode_utf8(crate::path::render(path@)) && e.1@ == object_id@,
{
    let key = match Children::get(path) {
        Ok(k) => k,
        Err(e) => {
            return Err(e);
        },
    };
    Ok((key, namespace_id_to_bytes(object_id)))
}
}

/// Where a lookup from the root directory goes.
#[derive(Debug)]
pub enum RootLookup {
    /// The root directory itself
    Root,
    /// The path below the root
    Below(FsPath),
}

impl LisRoot {
/// Where a lookup of `full_path` from the root directory goes: `/` is the
/// root itself, another absolute path the path below the root (which
/// `LisDir::find` walks), and a relative path is refused.
pub fn find(full_path: &FsPath) -> (r: Result<RootLookup, ObjectError>)
    ensures
        full_path@ == seq![seq!['/']] ==> r matches Ok(RootLookup::Root),
        full_path@ != seq![seq!['/']] && (full_path@.len() == 0 || full_path@[0] != seq!['/'])
            ==> r == Err::<RootLookup, ObjectError>(ObjectError::InvalidPath),
        full_path@ != seq![seq!['/']] && full_path@.len() > 0 && full_path@[0] == seq!['/']
            ==> (r matches Ok(RootLookup::Below(p)) && p@ == full_path@.skip(1)),
{
    let root = FsPath::new("/");
    proof {
        reveal_strlit("/");
        assert(crate::path::split_slash("/"@) =~= seq![Seq::<char>::empty(), Seq::<char>::empty()]) by {
            reveal_with_fuel(crate::path::split_slash, 3);
        }
        assert(crate::path::normals(crate::path::split_slash("/"@)) =~= Seq::<Seq<char>>::empty()) by {
            reveal_with_fuel(crate::path::normals, 3);
        }
        assert(root@ =~= seq![seq!['/']]);
    }
    if full_path.same_as(&root) {
        return Ok(RootLookup::Root);
    }
    match full_path.split_first() {
        None => Err(ObjectError::InvalidPath),
        Some((first, rest)) => {
            proof {
                assert(first@ =~= seq![full_path@[0]]);
            }
            if !first.same_as(&root) {
                return Err(ObjectError::InvalidPath);
            }
            proof {
                assert(full_path@[0] == first@[0]);
                assert(first@[0] == seq!['/']);
            }
            proof {
                assert(full_path@.take(1) =~= seq![full_path@[0]]);
            }
            match rest {
                Some(p) => Ok(RootLookup::Below(p)),
                None => {
                    proof {
                        assert(full_path@ =~= seq![seq!['/']]);
                    }
                    Ok(RootLookup::Root)
                },
            }
        },
    }
}
}


/// What a directory lookup found under the name it was asked for.
#[derive(Debug, Clone, Copy, PartialEq, Eq, Structural)]
pub enum ChildFound {
    Dir,
    File,
    Absent,
}

/// What a walk down the directories along a path does next.
#[derive(Debug)]
pub enum FindAction {
    /// Look up the entry of this name in the directory reached so far
    Lookup(String),
    /// The path names the directory reached
    FoundDir,
    /// The path runs into a file
    FoundFile,
    /// Nothing is at the path
    NotFound,
    /// The path holds a component that is not a name (the root, `.` or `..`)
    InvalidComponent,
}

/// Whether a path component is a plain name.
pub open spec fn is_name(c: Seq<char>) -> bool {
    c != seq!['/'] && c != seq!['.'] && c != seq!['.', '.']
}

/// The step of a walk along `comps` from a directory, after `done` lookups,
/// the last of which found `last` (`ChildFound::Dir` before the first): a
/// file or nothing ends the walk there; else the next component is looked
/// up if it is a name, and the walk ends at the directory once none is
/// left.
pub open spec fn find_step_spec(comps: Seq<Seq<char>>, done: int, last: ChildFound) -> FindAction {
    match last {
        ChildFound::File => FindAction::FoundFile,
        ChildFound::Absent => FindAction::NotFound,
        ChildFound::Dir => if done >= comps.len() {
            FindAction::FoundDir
        } else if !is_name(comps[done]) {
            FindAction::InvalidComponent
        } else {
            FindAction::Lookup(arbitrary())
        },
    }
}

impl LisDir {
/// The next step of a walk along `path` (relative to the directory it
/// starts from) after `done` lookups, the last of which found `last`
/// (`ChildFound::Dir` before the first): see `find_step_spec`; a lookup
/// asks for the next component.
pub fn find(path: &FsPath, done: usize, last: ChildFound) -> (r: FindAction)
    requires
        done <= path@.len(),
    ensures
        r is Lookup <==> find_step_spec(path@, done as int, last) is Lookup,
        r matches FindAction::Lookup(name) ==> name@ == path@[done as int],
        !(r is Lookup) ==> r == find_step_spec(path@, done as int, last),
{
    match last {
        ChildFound::File => FindAction::FoundFile,
        ChildFound::Absent => FindAction::NotFound,
        ChildFound::Dir => {
            if done == path.component_count() {
                return FindAction::FoundDir;
            }
            let c = path.component(done);
            let root = String::from_str("/");
            let here = String::from_str(".");
            let up = String::from_str("..");
            proof {
                reveal_strlit("/");
                reveal_strlit(".");
                reveal_strlit("..");
                assert(root@ =~= seq!['/']);
                assert(here@ =~= seq!['.']);
                assert(up@ =~= seq!['.', '.']);
            }
            if c == root || c == here || c == up {
                return FindAction::InvalidComponent;
            }
            FindAction::Lookup(c)
        },
    }
}

/// Puts the object `object_id` at `path`, a single component, in the
/// directory: the entry to store in its children document (see
/// `Children::put`), and one more item counted in its metadata. A path of
/// more than one component, and a directory whose metadata holds a file's
/// attributes, are refused, and nothing changes.
pub fn put(&mut self, path: &FsPath, object_id: [u8; 32]) -> (r: Result<(Key, Vec<u8>), ObjectError>)
    requires
        old(self).metadata.attrs matches ObjectAttributes::DirAttributes { items } ==> items < u64::MAX,
    ensures
        final(self).doc == old(self).doc,
        final(self).children == old(self).children,
        final(self).metadata.doc == old(self).metadata.doc,
        final(self).metadata.kind@ == old(self).metadata.kind@,
        path@.len() != 1 ==> r == Err::<(Key, Vec<u8>), ObjectError>(ObjectError::InvalidPath)
            && final(self).metadata.attrs == old(self).metadata.attrs,
        path@.len() == 1 ==> match old(self).metadata.attrs {
            ObjectAttributes::DirAttributes { items } => (r matches Ok(e) && e.0.0@ == encode_utf8(crate::path::render(path@))
                && e.1@ == object_id@) && final(self).metadata.attrs == ObjectAttributes::DirAttributes { items: (items + 1) as u64 },
            ObjectAttributes::FileAttributes { .. } => r == Err::<(Key, Vec<u8>), ObjectError>(ObjectError::WrongAttributes)
                && final(self).metadata.attrs == old(self).metadata.attrs,
        },
{
    let entry = match Children::put(path, object_id) {
        Ok(e) => e,
        Err(e) => {
            return Err(e);
        },
    };
    match self.metadata.add_item() {
        Ok(()) => Ok(entry),
        Err(e) => Err(e),
    }
}
}

} // verus!
