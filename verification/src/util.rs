//! Path helpers.

use vstd::prelude::*;
use vstd::utf8::{decode_utf8, encode_utf8, valid_utf8};
use crate::path::{FsPath, is_prefix, path_components, render};

verus! {

/// The path relative to `parent`, if `parent` is a prefix of `path`.
pub fn get_relative_path(path: &FsPath, parent: &FsPath) -> (r: Option<FsPath>)
    ensures
        r matches Some(p) ==> is_prefix(parent@, path@) && p@ == path@.skip(parent@.len() as int),
        r is None <==> !is_prefix(parent@, path@),
{
    path.strip_prefix(parent)
}

/// The first component of a path and the rest, if any.
pub fn split_path(path: &FsPath) -> (r: Option<(FsPath, Option<FsPath>)>)
    ensures
        r is None <==> path@.len() == 0,
        r matches Some((next, rest)) ==> {
            &&& next@ == path@.take(1)
            &&& (path@.len() == 1 <==> rest is None)
            &&& (rest matches Some(p) ==> p@ == path@.skip(1))
        },
{
    path.split_first()
}

/// `std::str::from_utf8`: the text the bytes encode, or nothing when they
/// are not valid UTF-8.
#[verifier::external_body]
pub(crate) fn utf8_text(bytes: &[u8]) -> (r: Option<String>)
    ensures
        r matches Some(s) ==> valid_utf8(bytes@) && s@ == decode_utf8(bytes@),
        r is None ==> !valid_utf8(bytes@),
{
    match std::str::from_utf8(bytes) {
        Ok(s) => Some(s.to_string()),
        Err(_) => None,
    }
}

/// A copy of some bytes.
fn copy_bytes(b: &[u8]) -> (r: Vec<u8>)
    ensures
        r@ == b@,
{
    let mut r: Vec<u8> = Vec::new();
    let mut i: usize = 0;
    while i < b.len()
        invariant
            i <= b.len(),
            r@ == b@.take(i as int),
        decreases b.len() - i,
    {
        r.push(b[i]);
        proof {
            assert(b@.take(i + 1) =~= b@.take(i as int).push(b@[i as int]));
        }
        i = i + 1;
    }
    proof {
        assert(b@.take(b.len() as int) =~= b@);
    }
    r
}

/// Stored bytes that are not the 32 bytes of a namespace identifier.
#[derive(Debug, Clone, Copy, PartialEq, Eq, Structural)]
pub struct NotANamespaceId;

/// The bytes stored for a namespace identifier: its 32 bytes.
pub fn namespace_id_to_bytes(id: [u8; 32]) -> (r: Vec<u8>)
    ensures
        r@ == id@,
{
    copy_bytes(id.as_slice())
}

/// The namespace identifier stored as `bytes`; anything but 32 bytes is
/// refused.
pub fn bytes_to_namespace_id(bytes: &[u8]) -> (r: Result<[u8; 32], NotANamespaceId>)
    ensures
        r is Ok <==> bytes@.len() == 32,
        r matches Ok(id) ==> id@ == bytes@,
{
    if bytes.len() != 32 {
        return Err(NotANamespaceId);
    }
    let mut id = [0u8; 32];
    let mut i: usize = 0;
    while i < 32
        invariant
            bytes@.len() == 32,
            i <= 32,
            id@.len() == 32,
            forall|j: int| 0 <= j < i ==> id@[j] == bytes@[j],
        decreases 32 - i,
    {
        id.set(i, bytes[i]);
        i = i + 1;
    }
    proof {
        assert(id@ =~= bytes@);
    }
    Ok(id)
}

/// A namespace identifier stored and read back is the same identifier:
/// the stored bytes are 32 long, so they are accepted, and the only
/// identifier with those bytes is `id`.
pub proof fn lemma_namespace_id_round_trip(id: [u8; 32], stored: Seq<u8>, back: [u8; 32])
    requires
        stored == id@,
        back@ == stored,
    ensures
        stored.len() == 32,
        back == id,
{
    broadcast use vstd::array::group_array_axioms;
    assert(back =~= id);
}

/// A key of a document entry: bytes, most often the UTF-8 text of a path.
#[derive(Debug)]
pub struct Key(pub Vec<u8>);

impl Key {
    /// The key of a string: its UTF-8 bytes.
    pub fn from_string(s: String) -> (k: Key)
        ensures
            k.0@ == encode_utf8(s@),
    {
        Key(copy_bytes(s.as_str().as_bytes()))
    }

    /// The key of some bytes: a copy of them.
    pub fn from_bytes(k: &[u8]) -> (r: Key)
        ensures
            r.0@ == k@,
    {
        Key(copy_bytes(k))
    }

    /// The key of a path: the UTF-8 bytes of its text.
    pub fn from_path(path: &FsPath) -> (k: Key)
        ensures
            k.0@ == encode_utf8(render(path@)),
    {
        let text = path.to_string();
        Key(copy_bytes(text.as_str().as_bytes()))
    }

    /// The key of a namespace identifier: its bytes.
    pub fn from_namespace_id(id: [u8; 32]) -> (k: Key)
        ensures
            k.0@ == id@,
    {
        Key(copy_bytes(id.as_slice()))
    }

    /// The key's bytes.
    pub fn into_bytes(self) -> (r: Vec<u8>)
        ensures
            r@ == self.0@,
    {
        self.0
    }

    /// The path the key names; its bytes must be UTF-8 text.
    pub fn to_path(&self) -> (p: FsPath)
        requires
            valid_utf8(self.0@),
        ensures
            p@ == path_components(decode_utf8(self.0@)),
    {
        match utf8_text(self.0.as_slice()) {
            Some(text) => FsPath::new(text.as_str()),
            None => FsPath::new(""),
        }
    }
}

} // verus!
