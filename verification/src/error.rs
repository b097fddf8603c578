use vstd::prelude::*;

verus! {

/// The ways an operation on a container can fail.
///
/// `Codec`: the input is not a valid compressed stream, or the
/// compressor itself failed.
/// `Format`: the decompressed content does not hold exactly one
/// separator marker.
/// `Integrity`: the stored checksum does not match the checksum
/// recomputed over the recovered payload.
#[derive(Clone, Copy, Debug, PartialEq, Eq, Structural)]
pub enum ContainerError {
    Codec,
    Format,
    Integrity,
}

} // verus!
