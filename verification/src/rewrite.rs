use vstd::prelude::*;
use crate::container::{decode, decode_of, encode, encode_plain, field_clean, Header, HeaderV};
use crate::error::ContainerError;
use crate::hex::{hex_digit, is_hex_char};
use crate::laws::with_checksum;
use crate::xz;

verus! {

/// Relies on rand's `random_range`: the result lies in the given
/// range. The value is random, so nothing more is claimed of it.
#[verifier::external_body]
fn random_nibble() -> (r: u8)
    ensures
        r < 16,
{
    rand::random_range(0..16u8)
}

/// Draws a fresh checksum-shaped value: 64 random lowercase
/// hexadecimal characters.
pub fn random_hex_checksum() -> (r: Vec<u8>)
    ensures
        r@.len() == 64,
        forall|j: int| 0 <= j < 64 ==> is_hex_char(#[trigger] r@[j]),
        field_clean(r@),
{
    let mut r: Vec<u8> = Vec::new();
    let mut k: usize = 0;
    while k < 64
        invariant
            k <= 64,
            r@.len() == k,
            forall|j: int| 0 <= j < k ==> is_hex_char(#[trigger] r@[j]),
        decreases 64 - k,
    {
        let n = random_nibble();
        let c = if n < 10 {
            48 + n
        } else {
            87 + n
        };
        proof {
            assert(c == hex_digit(n));
            assert(is_hex_char(c));
        }
        r.push(c);
        k = k + 1;
    }
    proof {
        crate::archive::lemma_hex_field_clean(r@);
    }
    r
}

/// Re-emits a container with only the stored checksum replaced: the
/// container is decoded, the `Compressed by` field of its header is
/// set to `checksum`, and header and payload — the payload unchanged —
/// are encoded again. Fails with the decode error on a container that
/// does not decode, and with a codec error when re-compression fails.
pub fn rewrite(container: &Vec<u8>, checksum: Vec<u8>) -> (r: Result<Vec<u8>, ContainerError>)
    ensures
        decode_of(container@) is Err ==> r is Err && r->Err_0 == decode_of(container@)->Err_0,
        decode_of(container@) is Ok ==> match r {
            Ok(c2) => {
                let plain = encode_plain(
                    with_checksum(decode_of(container@)->Ok_0.0, checksum@),
                    decode_of(container@)->Ok_0.1,
                );
                xz::unxz_of(c2@) == Some(plain)
            },
            Err(e) => e == ContainerError::Codec,
        },
{
    let (header, payload) = match decode(container) {
        Ok(hp) => hp,
        Err(e) => {
            return Err(e);
        },
    };
    let new_header = Header {
        extension: header.extension,
        date: header.date,
        checksum,
    };
    encode(&new_header, &payload)
}

/// Re-emits a container with the stored checksum replaced by a freshly
/// drawn random one. Returns the new container beside the checksum
/// that was written into it.
pub fn rewrite_random(container: &Vec<u8>) -> (r: Result<(Vec<u8>, Vec<u8>), ContainerError>)
    ensures
        decode_of(container@) is Err ==> r is Err && r->Err_0 == decode_of(container@)->Err_0,
        decode_of(container@) is Ok ==> match r {
            Ok(cc) => {
                let plain = encode_plain(
                    with_checksum(decode_of(container@)->Ok_0.0, cc.1@),
                    decode_of(container@)->Ok_0.1,
                );
                &&& xz::unxz_of(cc.0@) == Some(plain)
                &&& cc.1@.len() == 64
                &&& field_clean(cc.1@)
            },
            Err(e) => e == ContainerError::Codec,
        },
{
    let fresh = random_hex_checksum();
    let mut copy: Vec<u8> = Vec::new();
    let mut k: usize = 0;
    while k < fresh.len()
        invariant
            k <= fresh@.len(),
            copy@ =~= fresh@.subrange(0, k as int),
        decreases fresh@.len() - k,
    {
        copy.push(fresh[k]);
        k = k + 1;
    }
    proof {
        assert(copy@ =~= fresh@);
    }
    match rewrite(container, copy) {
        Ok(c2) => Ok((c2, fresh)),
        Err(e) => Err(e),
    }
}

} // verus!
