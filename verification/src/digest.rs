use vstd::prelude::*;
use crate::hex::{hex_of, to_hex};
use sha2::Digest;

verus! {

/// The SHA-256 digest of a byte sequence. The algorithm takes pages to
/// state, so its result only gets a name here: a pure function of the
/// input bytes, 32 bytes long.
pub uninterp spec fn sha256_of(s: Seq<u8>) -> Seq<u8>;

/// Relies on sha2's `Sha256`: the digest is a pure function of the
/// input bytes and is always 32 bytes (256 bits) long.
#[verifier::external_body]
fn sha256_bytes(s: &Vec<u8>) -> (r: Vec<u8>)
    ensures
        r@ == sha256_of(s@),
        r@.len() == 32,
{
    let mut hasher = sha2::Sha256::new();
    hasher.update(s.as_slice());
    hasher.finalize().to_vec()
}

/// The checksum of a byte sequence as stored in a container header:
/// the SHA-256 digest rendered as 64 lowercase hexadecimal bytes.
pub open spec fn digest_of(s: Seq<u8>) -> Seq<u8> {
    hex_of(sha256_of(s))
}

/// Computes the checksum of a byte sequence: the SHA-256 digest as 64
/// lowercase hexadecimal bytes.
pub fn digest(s: &Vec<u8>) -> (r: Vec<u8>)
    ensures
        r@ == digest_of(s@),
        r@.len() == 64,
{
    let raw = sha256_bytes(s);
    to_hex(&raw)
}

/// The checksum is deterministic: equal payloads have equal digests.
/// Nothing is claimed of unequal payloads; that two distinct payloads
/// collide is only overwhelmingly unlikely, not impossible.
pub proof fn lemma_digest_stable(p1: Seq<u8>, p2: Seq<u8>)
    requires
        p1 == p2,
    ensures
        digest_of(p1) == digest_of(p2),
{
}

} // verus!
