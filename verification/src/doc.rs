//! Documents of the store and their types.

use vstd::prelude::*;
use vstd::utf8::{decode_utf8, encode_utf8, valid_utf8};

verus! {

/// A document, named by the 32 bytes of its namespace identifier.
#[derive(Debug, Clone, Copy)]
pub struct LisDoc {
    doc_id: [u8; 32],
}

impl LisDoc {
    /// The identifier's bytes.
    pub closed spec fn id_spec(&self) -> Seq<u8> {
        self.doc_id@
    }

    /// The document of a namespace identifier.
    pub fn from_namespace_id(doc_id: [u8; 32]) -> (d: Self)
        ensures
            d.id_spec() == doc_id@,
    {
        LisDoc { doc_id }
    }

    pub fn id(&self) -> (r: [u8; 32])
        ensures
            r@ == self.id_spec(),
    {
        self.doc_id
    }
}

#[derive(Debug, Clone, Copy, PartialEq, Eq, Structural)]
pub enum DocType {
    DirDoc,
    ChildrenDoc,
    MetadataDoc,
    ChunksDoc,
    FileDoc,
    RootDoc,
    Unknown,
}

/// The type named by the text of a `.type` entry.
pub open spec fn doc_type_of(text: Seq<char>) -> DocType {
    if text == "root"@ {
        DocType::RootDoc
    } else if text == "dir"@ {
        DocType::DirDoc
    } else if text == "children"@ {
        DocType::ChildrenDoc
    } else if text == "metadata"@ {
        DocType::MetadataDoc
    } else if text == "file"@ {
        DocType::FileDoc
    } else if text == "chunks"@ {
        DocType::ChunksDoc
    } else {
        DocType::Unknown
    }
}

/// Whether two byte strings are equal.
fn bytes_equal(a: &[u8], b: &[u8]) -> (r: bool)
    ensures
        r == (a@ == b@),
{
    if a.len() != b.len() {
        return false;
    }
    let mut i: usize = 0;
    while i < a.len()
        invariant
            a@.len() == b@.len(),
            i <= a.len(),
            forall|j: int| 0 <= j < i ==> a@[j] == b@[j],
        decreases a.len() - i,
    {
        if a[i] != b[i] {
            return false;
        }
        i = i + 1;
    }
    proof {
        assert(a@ =~= b@);
    }
    true
}

/// Whether the UTF-8 bytes `bytes` are the text `lit`.
fn bytes_are(bytes: &[u8], lit: &str) -> (r: bool)
    requires
        valid_utf8(bytes@),
    ensures
        r == (decode_utf8(bytes@) == lit@),
{
    broadcast use {vstd::utf8::encode_utf8_decode_utf8, vstd::utf8::decode_utf8_encode_utf8};
    let l = lit.as_bytes();
    let r = bytes_equal(bytes, l);
    proof {
        assert(l@ == encode_utf8(lit@));
        assert(decode_utf8(encode_utf8(lit@)) == lit@);
        assert(encode_utf8(decode_utf8(bytes@)) == bytes@);
    }
    r
}

impl DocType {
    /// The type named by the UTF-8 text of a `.type` entry.
    pub fn from_bytes(bytes: &[u8]) -> (r: DocType)
        requires
            valid_utf8(bytes@),
        ensures
            r == doc_type_of(decode_utf8(bytes@)),
    {
        if bytes_are(bytes, "root") {
            DocType::RootDoc
        } else if bytes_are(bytes, "dir") {
            DocType::DirDoc
        } else if bytes_are(bytes, "children") {
            DocType::ChildrenDoc
        } else if bytes_are(bytes, "metadata") {
            DocType::MetadataDoc
        } else if bytes_are(bytes, "file") {
            DocType::FileDoc
        } else if bytes_are(bytes, "chunks") {
            DocType::ChunksDoc
        } else {
            DocType::Unknown
        }
    }
}

} // verus!
