//! Content addresses of documents.

use vstd::prelude::*;

verus! {

/// The lowercase hexadecimal digit of a number below 16.
pub open spec fn hex_digit(n: int) -> char {
    if n < 10 {
        (48 + n) as char
    } else {
        (87 + n) as char
    }
}

/// Each byte as two lowercase hexadecimal digits, the high one first.
pub open spec fn hex_text(bytes: Seq<u8>) -> Seq<char>
    decreases bytes.len(),
{
    if bytes.len() == 0 {
        Seq::empty()
    } else {
        hex_text(bytes.drop_last()) + seq![hex_digit((bytes.last() / 16) as int), hex_digit((bytes.last() % 16) as int)]
    }
}

/// The BLAKE3 digest of some bytes.
pub uninterp spec fn blake3_digest(data: Seq<u8>) -> Seq<u8>;

/// `blake3::hash`: the BLAKE3 digest of `data`, its 32 bytes.
#[verifier::external_body]
fn blake3_hash(data: &[u8]) -> (r: Vec<u8>)
    ensures
        r@ == blake3_digest(data@),
        r@.len() == 32,
{
    blake3::hash(data).as_bytes().to_vec()
}

/// `hex::encode`: the bytes as lowercase hexadecimal text, two digits per
/// byte, the high digit first.
#[verifier::external_body]
fn hex_encode(data: &[u8]) -> (r: String)
    ensures
        r@ == hex_text(data@),
{
    hex::encode(data)
}

/// A document's address: the hexadecimal text of the BLAKE3 digest of its
/// content.
#[derive(Debug, PartialEq, Eq, Hash)]
pub struct DocumentId(pub String);

impl Clone for DocumentId {
    fn clone(&self) -> (r: Self)
        ensures
            r.0@ == self.0@,
    {
        DocumentId(self.0.clone())
    }
}

impl DocumentId {
    /// The address of the content whose digest is `digest`.
    pub fn from_digest(digest: &[u8]) -> (d: DocumentId)
        ensures
            d.0@ == hex_text(digest@),
    {
        DocumentId(hex_encode(digest))
    }

    /// The address of `content`.
    pub fn new(content: &[u8]) -> (d: DocumentId)
        ensures
            d.0@ == hex_text(blake3_digest(content@)),
            d.0@.len() == 64,
    {
        let digest = blake3_hash(content);
        proof {
            lemma_hex_len(digest@);
        }
        Self::from_digest(digest.as_slice())
    }
}

/// The hexadecimal text has two digits per byte.
pub proof fn lemma_hex_len(bytes: Seq<u8>)
    ensures
        hex_text(bytes).len() == 2 * bytes.len(),
    decreases bytes.len(),
{
    if bytes.len() > 0 {
        lemma_hex_len(bytes.drop_last());
    }
}

} // verus!
