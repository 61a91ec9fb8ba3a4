//! Content integrity: BLAKE3 digests of whole files and of single chunks.
//!
//! The digest itself is computed by the `blake3` crate; this module gives
//! its result a name, `blake3_hex`, that the protocol contracts speak of:
//! the full-file digest carried in the offer metadata and the per-chunk
//! digest carried in every `ChunkData` both equal `blake3_hex` of the
//! respective bytes.

use vstd::prelude::*;

verus! {

/// The lowercase-hexadecimal BLAKE3 digest of a byte sequence. The digest
/// is a pure function of the bytes; nothing further is assumed of it.
pub uninterp spec fn blake3_hex(bytes: Seq<u8>) -> Seq<char>;

/// An ASCII lowercase hexadecimal digit.
pub open spec fn is_lower_hex_char(c: char) -> bool {
    ('0' <= c && c <= '9') || ('a' <= c && c <= 'f')
}

/// The shape of every digest the protocol carries: 64 lowercase
/// hexadecimal characters.
pub open spec fn is_hex_digest(s: Seq<char>) -> bool {
    s.len() == 64 && forall|i: int| 0 <= i < s.len() ==> is_lower_hex_char(#[trigger] s[i])
}

/// Relies on `blake3::hash` and `Hash::to_hex`: the 32-byte digest is a
/// pure function of the input bytes, rendered as 64 lowercase
/// hexadecimal characters.
#[verifier::external_body]
pub fn hash_hex(data: &[u8]) -> (r: String)
    ensures
        r@ == blake3_hex(data@),
        is_hex_digest(r@),
{
    blake3::hash(data).to_hex().as_str().to_owned()
}

/// The bytes a hasher has absorbed so far. The sender's preamble feeds
/// a file through one of these in buffered reads.
pub uninterp spec fn absorbed(h: blake3::Hasher) -> Seq<u8>;

#[verifier::external_type_specification]
#[verifier::external_body]
pub struct ExBlake3Hasher(blake3::Hasher);

/// Relies on `blake3::Hasher::new`: a fresh hasher has absorbed nothing.
#[verifier::external_body]
pub fn hasher_new() -> (r: blake3::Hasher)
    ensures
        absorbed(r) == Seq::<u8>::empty(),
{
    blake3::Hasher::new()
}

/// Relies on `blake3::Hasher::update`: the hasher absorbs the bytes in
/// order after everything it already held.
#[verifier::external_body]
pub fn hasher_update(h: &mut blake3::Hasher, data: &[u8])
    ensures
        absorbed(*final(h)) == absorbed(*old(h)) + data@,
{
    h.update(data);
}

/// Relies on `blake3::Hasher::finalize` and `Hash::to_hex`: the digest of
/// everything absorbed, rendered exactly as `blake3::hash` renders the
/// digest of the same bytes in one call.
#[verifier::external_body]
pub fn hasher_finalize_hex(h: &blake3::Hasher) -> (r: String)
    ensures
        r@ == blake3_hex(absorbed(*h)),
        is_hex_digest(r@),
{
    h.finalize().to_hex().as_str().to_owned()
}

} // verus!
