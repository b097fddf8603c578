use vstd::prelude::*;
use crate::container::{
    decode, decode_of, encode, encode_plain, field_clean, is_field_clean, Header, HeaderV,
};
use crate::digest::{digest, digest_of};
use crate::error::ContainerError;
use crate::hex::is_hex_char;
use crate::xz;

verus! {

/// Relies on chrono's `Utc::now` and its formatter with the pattern
/// `%Y-%m-%d %H:%M:%S UTC`. The result depends on the clock, so
/// nothing is claimed of it; the caller checks what came back.
#[verifier::external_body]
fn now_utc_bytes() -> (r: Vec<u8>)
{
    chrono::Utc::now().format("%Y-%m-%d %H:%M:%S UTC").to_string().into_bytes()
}

/// Whether two byte vectors hold the same bytes.
fn bytes_eq(a: &Vec<u8>, b: &Vec<u8>) -> (r: bool)
    ensures
        r == (a@ == b@),
{
    if a.len() != b.len() {
        return false;
    }
    let mut k: usize = 0;
    while k < a.len()
        invariant
            a@.len() == b@.len(),
            k <= a@.len(),
            forall|m: int| 0 <= m < k ==> a@[m] == b@[m],
        decreases a@.len() - k,
    {
        if a[k] != b[k] {
            return false;
        }
        k = k + 1;
    }
    proof {
        assert(a@ =~= b@);
    }
    true
}

/// A lowercase hexadecimal byte is clean: it is neither a newline nor
/// a hyphen.
pub proof fn lemma_hex_field_clean(s: Seq<u8>)
    requires
        forall|j: int| 0 <= j < s.len() ==> is_hex_char(#[trigger] s[j]),
    ensures
        field_clean(s),
{
    assert(forall|k: int| 0 <= k < s.len() ==> s[k] != 10u8);
    assert(forall|t: int| 0 <= t < s.len() ==> #[trigger] s[t] != 45u8);
}

/// Builds the header for a payload about to be archived: the declared
/// extension, the current UTC timestamp, and the checksum of the
/// payload. A timestamp the clock hands back in an unusable shape —
/// one that could break the line structure — is replaced by an empty
/// date rather than stored.
pub fn make_header(payload: &Vec<u8>, extension: &Vec<u8>) -> (h: Header)
    ensures
        h@.extension == extension@,
        h@.checksum == digest_of(payload@),
        field_clean(h@.date),
        field_clean(h@.checksum),
{
    let checksum = digest(payload);
    proof {
        crate::hex::lemma_hex_charset(crate::digest::sha256_of(payload@));
        lemma_hex_field_clean(checksum@);
    }
    let date = now_utc_bytes();
    let date = if is_field_clean(&date) {
        date
    } else {
        Vec::new()
    };
    let mut ext: Vec<u8> = Vec::new();
    let mut k: usize = 0;
    while k < extension.len()
        invariant
            k <= extension@.len(),
            ext@ =~= extension@.subrange(0, k as int),
        decreases extension@.len() - k,
    {
        ext.push(extension[k]);
        k = k + 1;
    }
    proof {
        assert(ext@ =~= extension@);
    }
    Header { extension: ext, date, checksum }
}

/// Archives a payload: stamps a header with the payload's checksum and
/// the current time, and encodes header and payload into a container.
/// Returns the header beside the container so the caller can report
/// what was stored. Fails only when the compressor fails.
pub fn archive(payload: &Vec<u8>, extension: &Vec<u8>) -> (r: Result<
    (Header, Vec<u8>),
    ContainerError,
>)
    ensures
        r is Ok ==> {
            let (h, c) = r->Ok_0;
            &&& h@.extension == extension@
            &&& h@.checksum == digest_of(payload@)
            &&& field_clean(h@.date)
            &&& field_clean(h@.checksum)
            &&& xz::unxz_of(c@) == Some(encode_plain(h@, payload@))
        },
        r is Err ==> r->Err_0 == ContainerError::Codec,
{
    let h = make_header(payload, extension);
    match encode(&h, payload) {
        Ok(c) => Ok((h, c)),
        Err(e) => Err(e),
    }
}

/// Extracts a container and verifies its integrity: decodes it,
/// recomputes the checksum of the recovered payload, and hands header
/// and payload back only when the recomputed checksum equals the
/// stored one byte for byte. A mismatch is refused as an integrity
/// error: fail closed, no payload leaves this function.
pub fn extract(container: &Vec<u8>) -> (r: Result<(Header, Vec<u8>), ContainerError>)
    ensures
        match r {
            Ok(hp) => decode_of(container@) == Ok::<(HeaderV, Seq<u8>), ContainerError>(
                (hp.0@, hp.1@),
            ) && hp.0@.checksum == digest_of(hp.1@),
            Err(e) => match decode_of(container@) {
                Ok(hp0) => e == ContainerError::Integrity && hp0.0.checksum != digest_of(hp0.1),
                Err(e0) => e == e0,
            },
        },
{
    let (header, payload) = match decode(container) {
        Ok(hp) => hp,
        Err(e) => {
            return Err(e);
        },
    };
    let recomputed = digest(&payload);
    if bytes_eq(&header.checksum, &recomputed) {
        Ok((header, payload))
    } else {
        Err(ContainerError::Integrity)
    }
}

} // verus!
