use vstd::prelude::*;
use crate::error::ContainerError;
use std::io::Read;
use std::io::Write;

verus! {

/// What an xz stream decodes to: `Some` payload for a well-formed
/// stream, `None` for bytes that are not a well-formed xz stream.
/// Named rather than stated: what a stream decodes to is fixed by the
/// xz format alone, a pure function of the stream's bytes.
pub uninterp spec fn unxz_of(s: Seq<u8>) -> Option<Seq<u8>>;

/// Relies on xz2's `XzEncoder` (writing into a `Vec`, preset 6): it
/// produces a well-formed xz stream that decodes back to the input
/// bytes — the round trip the xz format guarantees. Writing into a
/// `Vec` sink cannot fail, but liblzma itself may report an error (for
/// instance when memory runs out), in which case nothing is claimed.
#[verifier::external_body]
pub fn compress(s: &Vec<u8>) -> (r: Result<Vec<u8>, ContainerError>)
    ensures
        r is Ok ==> unxz_of(r->Ok_0@) == Some(s@),
        r is Err ==> r->Err_0 == ContainerError::Codec,
{
    let mut encoder = xz2::write::XzEncoder::new(Vec::new(), 6);
    if encoder.write_all(s.as_slice()).is_err() {
        return Err(ContainerError::Codec);
    }
    match encoder.finish() {
        Ok(out) => Ok(out),
        Err(_) => Err(ContainerError::Codec),
    }
}

/// Relies on xz2's `XzDecoder`: reading to the end succeeds exactly on
/// a well-formed xz stream and returns the decoded bytes, which are a
/// pure function of the stream. Like the allocation behind `Vec::push`,
/// liblzma's own allocation is taken to succeed: short of memory
/// exhaustion, liblzma fails only on ill-formed input.
#[verifier::external_body]
pub fn decompress(s: &Vec<u8>) -> (r: Result<Vec<u8>, ContainerError>)
    ensures
        r is Ok ==> unxz_of(s@) == Some(r->Ok_0@),
        r is Err ==> unxz_of(s@) is None && r->Err_0 == ContainerError::Codec,
{
    let mut decoder = xz2::read::XzDecoder::new(s.as_slice());
    let mut out: Vec<u8> = Vec::new();
    match decoder.read_to_end(&mut out) {
        Ok(_) => Ok(out),
        Err(_) => Err(ContainerError::Codec),
    }
}

} // verus!
