//! Tests of the reduction-tree hasher: level cardinalities, padding, and
//! agreement of the library's constants with the primitive's own.

use swifft_image_hash::hash::ground_level;
use swifft_image_hash::hash::reduce_level;
use swifft_image_hash::hash::BLOCK_BYTES;
use swifft_image_hash::hash::DIGEST_WIDTH;
use swifft_image_hash::hash::FAN_IN;
use swifft_image_hash::hash::FIELD_MODULUS;
use swifft_image_hash::hash::IMAGE_BLOCKS;
use swifft_image_hash::hash::IMAGE_BYTES;
use swifft_image_hash::SWIFFT_DIGEST_BITS;

#[test]
fn constants_match_the_primitive() {
    assert_eq!(swifft::constant::INPUT_BLOCK_SIZE, BLOCK_BYTES);
    assert_eq!(swifft::constant::M, FAN_IN);
    assert_eq!(swifft::constant::N, DIGEST_WIDTH);
    assert_eq!(swifft::constant::P, FIELD_MODULUS);
}

#[test]
fn derived_constants() {
    assert_eq!(IMAGE_BYTES, 2_764_800);
    assert_eq!(IMAGE_BLOCKS, 21_600);
    assert_eq!(SWIFFT_DIGEST_BITS, 576);
    // the level cardinalities of the full tree, by repeated ceiling division
    assert_eq!(IMAGE_BYTES.div_ceil(BLOCK_BYTES), 21_600);
    assert_eq!(21_600usize.div_ceil(FAN_IN), 1_350);
    assert_eq!(1_350usize.div_ceil(FAN_IN), 85);
    assert_eq!(85usize.div_ceil(FAN_IN), 6);
    assert_eq!(6usize.div_ceil(FAN_IN), 1);
}

#[test]
fn ground_level_counts_blocks_by_ceiling_division() {
    assert_eq!(ground_level(&vec![0u8; 128]).len(), 1);
    assert_eq!(ground_level(&vec![0u8; 129]).len(), 2);
    assert_eq!(ground_level(&vec![0u8; 128 * 17]).len(), 17);
    assert_eq!(ground_level(&vec![7u8; 300]).len(), 3);
}

#[test]
fn reduce_level_counts_groups_by_ceiling_division() {
    let level = ground_level(&vec![3u8; 128 * 17]);
    assert_eq!(level.len(), 17);
    let next = reduce_level(&level);
    assert_eq!(next.len(), 2);
    let last = reduce_level(&next);
    assert_eq!(last.len(), 1);
    let sixteen = ground_level(&vec![9u8; 128 * 16]);
    assert_eq!(reduce_level(&sixteen).len(), 1);
}

#[test]
fn ground_padding_is_explicit_zero_extension() {
    // A 129-byte buffer has a short final block that is zero-padded; the
    // same bytes explicitly zero-extended to two full blocks must compress
    // to the same two digest vectors.
    let mut short = vec![0u8; 129];
    short[0] = 0x5A;
    short[128] = 0xAB;
    let mut full = short.clone();
    full.resize(256, 0u8);
    assert_eq!(ground_level(&short), ground_level(&full));
}

#[test]
fn ground_padding_leaves_earlier_blocks_alone() {
    // Two buffers that differ only inside the final, padded block still
    // agree on every earlier block's digest.
    let mut a = vec![0u8; 200];
    let mut b = vec![0u8; 200];
    a[150] = 1;
    b[150] = 2;
    let ga = ground_level(&a);
    let gb = ground_level(&b);
    assert_eq!(ga.len(), 2);
    assert_eq!(gb.len(), 2);
    assert_eq!(ga[0], gb[0]);
}

#[test]
fn group_padding_is_explicit_zero_vectors() {
    // A short final group is padded with the all-zero digest vector; padding
    // by hand with zero polynomials must give the same reduced level.
    let level = ground_level(&vec![3u8; 128 * 17]);
    let mut padded = level.clone();
    while padded.len() < 32 {
        padded.push(swifft::polynomial::Polynomial::ZERO);
    }
    assert_eq!(reduce_level(&level), reduce_level(&padded));
}

#[test]
fn ground_level_is_deterministic() {
    let buf = vec![0x42u8; 128 * 3];
    assert_eq!(ground_level(&buf), ground_level(&buf));
}
