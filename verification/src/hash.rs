//! The reduction-tree hasher: the raw buffer is split into byte blocks, each
//! block is compressed into one digest vector, and the vectors are then
//! regrouped and recompressed, `FAN_IN` at a time with the final short group
//! zero-padded, until exactly one vector remains.

use vstd::prelude::*;

verus! {

use swifft::polynomial::Polynomial;
use vstd::arithmetic::div_mod::lemma_fundamental_div_mod;
use vstd::arithmetic::div_mod::lemma_fundamental_div_mod_converse;
use vstd::arithmetic::power2::pow2;
use vstd::arithmetic::power2::lemma2_to64;
use crate::bits::bit_seq;
use crate::bits::lemma_bin_value_reconstruct;
use crate::primitive::block_bit;
use crate::primitive::coeff_seqs;
use crate::primitive::coeffs_wf;
use crate::primitive::compress_group;
use crate::primitive::compressed;
use crate::primitive::parse_block;
use crate::primitive::parsed_block;
use crate::primitive::parsed_poly;
use crate::primitive::poly_coeffs;
use crate::primitive::poly_values;
use crate::primitive::primitive_block_bytes;
use crate::primitive::primitive_fan_in;
use crate::primitive::zero_poly;
use crate::primitive::zero_vector;

pub const IMAGE_PIXELS: usize = 1280 * 720;

pub const BITS_PER_PIXEL: usize = 24;

pub const IMAGE_BITS: usize = IMAGE_PIXELS * BITS_PER_PIXEL;

/// The exact length of a raw input buffer: 2,764,800 bytes.
pub const IMAGE_BYTES: usize = IMAGE_BITS / 8;

/// How many bytes the primitive ingests per ground-level block.
pub const BLOCK_BYTES: usize = 128;

/// How many digest vectors one reduction-level compression consumes.
pub const FAN_IN: usize = 16;

/// How many field elements a digest vector holds.
pub const DIGEST_WIDTH: usize = 64;

/// The field modulus: every field element lies in `[0, 257)`.
pub const FIELD_MODULUS: u16 = 257;

/// How many blocks the ground level of the fixed-size image has.
pub const IMAGE_BLOCKS: usize = (IMAGE_BYTES + BLOCK_BYTES - 1) / BLOCK_BYTES;

/// Ceiling division, the derivation behind every level's cardinality.
pub open spec fn div_ceil_spec(n: int, d: int) -> int {
    (n + d - 1) / d
}

/// How many `BLOCK_BYTES`-byte blocks a buffer of `len` bytes splits into.
pub open spec fn ground_count(len: int) -> int {
    div_ceil_spec(len, BLOCK_BYTES as int)
}

/// How many groups of `FAN_IN` vectors a level of `n` vectors splits into.
pub open spec fn group_count(n: int) -> int {
    div_ceil_spec(n, FAN_IN as int)
}

/// Block `b` of a buffer: `BLOCK_BYTES` bytes starting at `b * BLOCK_BYTES`,
/// zero-padded past the end of the buffer.
pub open spec fn block_of(image: Seq<u8>, b: int) -> Seq<u8> {
    Seq::new(
        BLOCK_BYTES as nat,
        |i: int|
            if b * (BLOCK_BYTES as int) + i < image.len() {
                image[b * (BLOCK_BYTES as int) + i]
            } else {
                0u8
            },
    )
}

/// The ground level: each block of the buffer parsed and compressed into one
/// digest vector.
pub open spec fn ground_digests(image: Seq<u8>) -> Seq<Seq<u16>> {
    Seq::new(
        ground_count(image.len() as int) as nat,
        |b: int| compressed(parsed_block(block_of(image, b))),
    )
}

/// Group `g` of a level: `FAN_IN` consecutive vectors starting at
/// `g * FAN_IN`, zero-padded past the end of the level.
pub open spec fn pad_group(level: Seq<Seq<u16>>, g: int) -> Seq<Seq<u16>> {
    Seq::new(
        FAN_IN as nat,
        |k: int|
            if g * (FAN_IN as int) + k < level.len() {
                level[g * (FAN_IN as int) + k]
            } else {
                zero_vector()
            },
    )
}

/// One reduction level: each padded group compressed into one vector.
pub open spec fn reduced_level(level: Seq<Seq<u16>>) -> Seq<Seq<u16>> {
    Seq::new(group_count(level.len() as int) as nat, |g: int| compressed(pad_group(level, g)))
}

/// A level of two or more vectors reduces to strictly fewer, and never to
/// none.
pub proof fn lemma_group_count_shrinks(n: int)
    requires
        n >= 2,
    ensures
        1 <= group_count(n) < n,
{
    lemma_fundamental_div_mod(n + 15, 16);
}

/// The root of the reduction tree over a level: reduce until one vector
/// remains.
pub open spec fn tree_root(level: Seq<Seq<u16>>) -> Seq<u16>
    decreases level.len(),
    when level.len() >= 1
    via tree_root_decreases
{
    if level.len() == 1 {
        level[0]
    } else {
        tree_root(reduced_level(level))
    }
}

#[via_fn]
proof fn tree_root_decreases(level: Seq<Seq<u16>>) {
    if level.len() > 1 {
        lemma_group_count_shrinks(level.len() as int);
    }
}

/// Splits the buffer into `ground_count` blocks, zero-pads the final block if
/// it is short, and compresses each block into one digest vector.
pub fn ground_level(image: &Vec<u8>) -> (r: Vec<Polynomial>)
    requires
        1 <= image@.len(),
        image@.len() + BLOCK_BYTES <= usize::MAX,
    ensures
        r@.len() == ground_count(image@.len() as int),
        coeff_seqs(r@) == ground_digests(image@),
        forall|b: int| 0 <= b < r@.len() ==> coeffs_wf(poly_coeffs(#[trigger] r@[b])),
{
    let n = image.len();
    let block_bytes = primitive_block_bytes();
    let blocks = (n + (block_bytes - 1)) / block_bytes;
    proof {
        lemma_fundamental_div_mod(n as int + 127, 128);
    }
    let mut r: Vec<Polynomial> = Vec::new();
    for b in 0..blocks
        invariant
            blocks == ground_count(n as int),
            n == image@.len(),
            1 <= n,
            n + BLOCK_BYTES <= usize::MAX,
            block_bytes == BLOCK_BYTES,
            r@.len() == b,
            forall|h: int| 0 <= h < b ==> poly_coeffs(#[trigger] r@[h]) == ground_digests(
                image@,
            )[h],
            forall|h: int| 0 <= h < b ==> coeffs_wf(poly_coeffs(#[trigger] r@[h])),
    {
        proof {
            lemma_fundamental_div_mod(n as int + 127, 128);
            assert(b * block_bytes == b * 128 && b * 128 + 128 <= n + 127) by (nonlinear_arith)
                requires
                    block_bytes == 128,
                    b < blocks,
                    blocks == (n as int + 127) / 128,
                    (n as int + 127) == 128 * ((n as int + 127) / 128) + (n as int + 127) % 128,
                    0 <= (n as int + 127) % 128 < 128,
            ;
        }
        let mut blk: Vec<u8> = Vec::new();
        for i in 0..block_bytes
            invariant
                block_bytes == BLOCK_BYTES,
                n == image@.len(),
                n + BLOCK_BYTES <= usize::MAX,
                b * block_bytes == b * 128,
                b * 128 + 128 <= n + 127,
                blk@.len() == i,
                forall|m: int| 0 <= m < i ==> #[trigger] blk@[m] == block_of(image@, b as int)[m],
        {
            let idx = b * block_bytes + i;
            if idx < n {
                blk.push(image[idx]);
            } else {
                blk.push(0u8);
            }
        }
        proof {
            assert(blk@ =~= block_of(image@, b as int));
        }
        let polys = parse_block(&blk);
        proof {
            assert(coeff_seqs(polys@) =~= parsed_block(block_of(image@, b as int)));
        }
        let digest = compress_group(&polys);
        r.push(digest);
    }
    proof {
        assert(coeff_seqs(r@) =~= ground_digests(image@));
    }
    r
}

/// One reduction level: partitions the vectors into groups of `FAN_IN`,
/// zero-pads the final group if it is short, and compresses each group into
/// one vector of the next level.
pub fn reduce_level(level: &Vec<Polynomial>) -> (r: Vec<Polynomial>)
    requires
        1 <= level@.len(),
        level@.len() + FAN_IN <= usize::MAX,
    ensures
        r@.len() == group_count(level@.len() as int),
        coeff_seqs(r@) == reduced_level(coeff_seqs(level@)),
        forall|g: int| 0 <= g < r@.len() ==> coeffs_wf(poly_coeffs(#[trigger] r@[g])),
{
    let n = level.len();
    let fan_in = primitive_fan_in();
    let groups = (n + (fan_in - 1)) / fan_in;
    proof {
        lemma_fundamental_div_mod(n as int + 15, 16);
    }
    let mut r: Vec<Polynomial> = Vec::new();
    for g in 0..groups
        invariant
            groups == group_count(n as int),
            n == level@.len(),
            1 <= n,
            n + FAN_IN <= usize::MAX,
            fan_in == FAN_IN,
            r@.len() == g,
            forall|h: int| 0 <= h < g ==> poly_coeffs(#[trigger] r@[h]) == reduced_level(
                coeff_seqs(level@),
            )[h],
            forall|h: int| 0 <= h < g ==> coeffs_wf(poly_coeffs(#[trigger] r@[h])),
    {
        proof {
            lemma_fundamental_div_mod(n as int + 15, 16);
            assert(g * fan_in == g * 16 && g * 16 + 16 <= n + 15) by (nonlinear_arith)
                requires
                    fan_in == 16,
                    g < groups,
                    groups == (n as int + 15) / 16,
                    (n as int + 15) == 16 * ((n as int + 15) / 16) + (n as int + 15) % 16,
                    0 <= (n as int + 15) % 16 < 16,
            ;
        }
        let mut group: Vec<Polynomial> = Vec::new();
        for k in 0..fan_in
            invariant
                fan_in == FAN_IN,
                n == level@.len(),
                n + FAN_IN <= usize::MAX,
                g * fan_in == g * 16,
                g * 16 + 16 <= n + 15,
                group@.len() == k,
                forall|m: int| 0 <= m < k ==> poly_coeffs(#[trigger] group@[m]) == pad_group(
                    coeff_seqs(level@),
                    g as int,
                )[m],
        {
            let idx = g * fan_in + k;
            if idx < n {
                group.push(level[idx].clone());
            } else {
                group.push(zero_poly());
            }
        }
        proof {
            assert(coeff_seqs(group@) =~= pad_group(coeff_seqs(level@), g as int));
        }
        let digest = compress_group(&group);
        r.push(digest);
    }
    proof {
        assert(coeff_seqs(r@) =~= reduced_level(coeff_seqs(level@)));
    }
    r
}

/// Hashes the raw image buffer through the full reduction tree, returning the
/// final digest vector of `DIGEST_WIDTH` field elements.
pub fn swifft_hash_1280_720_24(image_data: &Vec<u8>) -> (r: Vec<u16>)
    requires
        image_data@.len() == IMAGE_BYTES,
    ensures
        r@ == tree_root(ground_digests(image_data@)),
        coeffs_wf(r@),
{
    let mut level = ground_level(image_data);
    proof {
        assert(ground_count(IMAGE_BYTES as int) == IMAGE_BLOCKS);
    }
    while level.len() > 1
        invariant
            1 <= level@.len() <= IMAGE_BLOCKS,
            tree_root(coeff_seqs(level@)) == tree_root(ground_digests(image_data@)),
            forall|h: int| 0 <= h < level@.len() ==> coeffs_wf(poly_coeffs(#[trigger] level@[h])),
        decreases level@.len(),
    {
        proof {
            lemma_group_count_shrinks(level@.len() as int);
        }
        let next = reduce_level(&level);
        proof {
            assert(tree_root(coeff_seqs(level@)) == tree_root(reduced_level(coeff_seqs(level@))));
        }
        level = next;
    }
    let root = poly_values(&level[0]);
    proof {
        assert(coeff_seqs(level@)[0] == poly_coeffs(level@[0]));
        assert(tree_root(coeff_seqs(level@)) == coeff_seqs(level@)[0]);
    }
    root
}

/// Level-count determinism: the cardinality of every level of the full-size
/// tree follows from `IMAGE_BYTES`, `BLOCK_BYTES` and `FAN_IN` by repeated
/// ceiling division alone — 21600 ground blocks, then 1350, 85 and 6
/// vectors, then the single root.
pub proof fn lemma_image_level_counts()
    ensures
        ground_count(IMAGE_BYTES as int) == 21600,
        group_count(21600) == 1350,
        group_count(1350) == 85,
        group_count(85) == 6,
        group_count(6) == 1,
{
}

/// Every block before the final one takes its bytes straight from the
/// buffer: zero-padding only ever touches the final block.
pub proof fn lemma_full_blocks_unpadded(image: Seq<u8>, b: int)
    requires
        0 <= b,
        (b + 1) * (BLOCK_BYTES as int) <= image.len(),
    ensures
        block_of(image, b) == image.subrange(
            b * (BLOCK_BYTES as int),
            (b + 1) * (BLOCK_BYTES as int),
        ),
{
    assert(block_of(image, b) =~= image.subrange(
        b * (BLOCK_BYTES as int),
        (b + 1) * (BLOCK_BYTES as int),
    ));
}

/// Every group before the final one takes its vectors straight from the
/// level: zero-padding only ever touches the final group, and reducing a
/// level reads the previous level's vectors unchanged.
pub proof fn lemma_full_groups_unpadded(level: Seq<Seq<u16>>, g: int)
    requires
        0 <= g,
        (g + 1) * (FAN_IN as int) <= level.len(),
    ensures
        pad_group(level, g) == level.subrange(g * (FAN_IN as int), (g + 1) * (FAN_IN as int)),
{
    assert(pad_group(level, g) =~= level.subrange(g * (FAN_IN as int), (g + 1) * (FAN_IN as int)));
}

/// Padding with the zero vector cannot make two distinct levels' groups
/// coincide: if two levels of equal length differ at index `i`, the padded
/// groups containing `i` differ too.
pub proof fn lemma_padding_keeps_distinct(level1: Seq<Seq<u16>>, level2: Seq<Seq<u16>>, i: int)
    requires
        level1.len() == level2.len(),
        0 <= i < level1.len(),
        level1[i] != level2[i],
    ensures
        pad_group(level1, i / (FAN_IN as int)) != pad_group(level2, i / (FAN_IN as int)),
{
    let g = i / 16;
    let k = i % 16;
    lemma_fundamental_div_mod(i, 16);
    assert(g * 16 + k == i);
    assert(pad_group(level1, g)[k] == level1[i]);
    assert(pad_group(level2, g)[k] == level2[i]);
}

/// Flipping any bit of the buffer changes what the ground level feeds the
/// primitive: the block holding the changed byte parses to a different group
/// of polynomials. Together with the injectivity of the canonical packing,
/// the composition preserves whatever collision resistance the primitive
/// itself provides; that resistance is the primitive's own and is not proved
/// here.
pub proof fn lemma_parsing_sensitive(image1: Seq<u8>, image2: Seq<u8>, p: int)
    requires
        image1.len() == image2.len(),
        0 <= p < image1.len(),
        image1[p] != image2[p],
    ensures
        parsed_block(block_of(image1, p / (BLOCK_BYTES as int))) != parsed_block(
            block_of(image2, p / (BLOCK_BYTES as int)),
        ),
{
    let b = p / 128;
    let i = p % 128;
    lemma_fundamental_div_mod(p, 128);
    assert(b * 128 + i == p);
    let blk1 = block_of(image1, b);
    let blk2 = block_of(image2, b);
    assert(blk1[i] == image1[p]);
    assert(blk2[i] == image2[p]);
    if parsed_block(blk1) == parsed_block(blk2) {
        assert forall|t: int| 0 <= t < 8 implies bit_seq(blk1[i] as int, 8)[t] == bit_seq(
            blk2[i] as int,
            8,
        )[t] by {
            let q = 8 * i + t;
            let j = q / 64;
            let c = q % 64;
            lemma_fundamental_div_mod(q, 64);
            assert(64 * j + c == q);
            assert(0 <= j < 16);
            assert(parsed_block(blk1)[j] == parsed_poly(blk1, j));
            assert(parsed_block(blk2)[j] == parsed_poly(blk2, j));
            assert(parsed_poly(blk1, j)[c] == block_bit(blk1, q));
            assert(parsed_poly(blk2, j)[c] == block_bit(blk2, q));
            lemma_fundamental_div_mod_converse(q, 8, i, t);
            assert(block_bit(blk1, q) as int == (blk1[i] as int / pow2(t as nat) as int) % 2);
            assert(block_bit(blk2, q) as int == (blk2[i] as int / pow2(t as nat) as int) % 2);
        }
        assert(bit_seq(blk1[i] as int, 8) =~= bit_seq(blk2[i] as int, 8));
        lemma2_to64();
        lemma_bin_value_reconstruct(blk1[i] as int, 8);
        lemma_bin_value_reconstruct(blk2[i] as int, 8);
        assert(blk1[i] == blk2[i]);
        assert(false);
    }
}

} // verus!
