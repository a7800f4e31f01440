//! Reduction-tree hashing of a fixed-size raw image buffer with the SWIFFT
//! compression primitive, and the canonical 72-byte serialization of the
//! resulting vector of field elements.

use vstd::prelude::*;

pub mod bits;
pub mod encode;
pub mod hash;
pub mod primitive;

verus! {

use crate::encode::DIGEST_BYTES;
use crate::encode::pack_digest;
use crate::encode::packed;
use crate::hash::IMAGE_BYTES;
use crate::hash::ground_digests;
use crate::hash::tree_root;

/// Number of bits needed to fully represent a digest, with 64 field elements
/// and 9 bits per element.
pub const SWIFFT_DIGEST_BITS: usize = 9 * 64;

/// The canonical digest of a raw image buffer, as a function of its bytes
/// alone: the root of the reduction tree over the buffer's blocks, packed
/// into 72 bytes.
pub open spec fn image_digest_spec(image: Seq<u8>) -> Seq<u8> {
    packed(tree_root(ground_digests(image)))
}

/// Takes a byte buffer of length exactly `IMAGE_BYTES` — the bytes of the
/// image — computes the reduction-tree hash of 64 field elements (9 bits
/// each), and packs those bits into a 72-byte little-endian array.
pub fn swifft_hash_1280_720_24(image_data: Vec<u8>) -> (digest: Vec<u8>)
    requires
        image_data@.len() == IMAGE_BYTES,
    ensures
        digest@ == image_digest_spec(image_data@),
        digest@.len() == DIGEST_BYTES,
{
    let vector = hash::swifft_hash_1280_720_24(&image_data);
    pack_digest(&vector)
}

/// Determinism: the canonical digest is a function of the buffer's bytes
/// alone, so repeated invocations on byte-identical buffers produce
/// byte-identical digests.
pub proof fn lemma_digest_deterministic(image1: Seq<u8>, image2: Seq<u8>)
    requires
        image1 == image2,
    ensures
        image_digest_spec(image1) == image_digest_spec(image2),
{
}

/// The canonical digest always has exactly `DIGEST_BYTES` bytes, whatever the
/// buffer holds.
pub proof fn lemma_digest_length(image: Seq<u8>)
    ensures
        image_digest_spec(image).len() == DIGEST_BYTES,
{
}

} // verus!
