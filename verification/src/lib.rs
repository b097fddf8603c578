//! A tamper-evident container format: an archive bundles an arbitrary
//! payload with a plaintext metadata header (original file extension,
//! creation timestamp, content checksum) and stores the whole as one
//! compressed stream. The library offers round-trip encode, decode with
//! checksum verification, and out-of-band rewriting of the stored checksum.
//!
//! Extraction is fail-closed: `archive::extract` hands the payload out only
//! when the stored checksum matches the one recomputed over the recovered
//! bytes. `container::decode` is the bare parser beneath it and performs no
//! such check. The checksum is a plain content hash, not a keyed code: anyone
//! who can rewrite the payload can also recompute a matching checksum, which
//! the rewriter in `rewrite` demonstrates deliberately.

pub mod archive;
pub mod container;
pub mod digest;
pub mod error;
pub mod hex;
pub mod laws;
pub mod names;
pub mod rewrite;
pub mod xz;
