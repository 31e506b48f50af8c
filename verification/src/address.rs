//! Content addresses: the hash that names a block, and the nonce taken from it.
use vstd::prelude::*;

verus! {

/// Bytes of a content hash.
pub const HASH_LEN: usize = 32;

/// Bytes of an AEAD nonce.
pub const NONCE_LEN: usize = 12;

/// Bytes of an AEAD tag.
pub const TAG_LEN: usize = 16;

/// What `blake3::hash` makes of `data`.
pub uninterp spec fn blake3_digest(data: Seq<u8>) -> Seq<u8>;

/// Calls `blake3::hash` and hands out its 32 bytes. Believed of it: the digest
/// is a function of the input bytes alone. That different inputs have different
/// digests is not claimed.
#[verifier::external_body]
fn blake3_hash(data: &[u8]) -> (digest: [u8; HASH_LEN])
    ensures
        digest@ == blake3_digest(data@),
{
    *blake3::hash(data).as_bytes()
}

/// The address of a content: the hash of its plaintext.
pub fn content_hash(data: &[u8]) -> (hash: [u8; HASH_LEN])
    ensures
        hash@ == blake3_digest(data@),
{
    blake3_hash(data)
}

/// The nonce under which the block at address `hash` is sealed.
pub open spec fn nonce_of(hash: Seq<u8>) -> Seq<u8> {
    hash.take(NONCE_LEN as int)
}

/// Derives an AEAD nonce from a content hash: its first bytes. A store never seals
/// again a content that it holds, so the nonce needs no randomness.
pub fn nonce_from_hash(hash: &[u8; HASH_LEN]) -> (nonce: [u8; NONCE_LEN])
    ensures
        nonce@ == nonce_of(hash@),
{
    let mut nonce = [0u8; NONCE_LEN];
    let mut i: usize = 0;
    while i < NONCE_LEN
        invariant
            i <= NONCE_LEN,
            forall|j: int| 0 <= j < i ==> nonce@[j] == hash@[j],
        decreases NONCE_LEN - i,
    {
        nonce[i] = hash[i];
        i = i + 1;
    }
    assert(nonce@ =~= nonce_of(hash@));
    nonce
}

} // verus!
