//! The canonical digest encoder: packs a vector of 64 nine-bit field elements
//! into 72 bytes, and unpacks it again. Each element contributes its 9 bits
//! least-significant bit first to one 576-bit stream; byte `j` of the output
//! holds stream bits `8*j .. 8*j + 8`, least-significant bit of the byte
//! first. The packing is exact: 64 * 9 == 72 * 8, so no padding bits exist.

use vstd::prelude::*;

verus! {

use vstd::arithmetic::power2::pow2;
use vstd::arithmetic::power2::lemma_pow2_unfold;
use vstd::arithmetic::power2::lemma_pow2_pos;
use vstd::arithmetic::power2::lemma2_to64;
use vstd::arithmetic::div_mod::lemma_div_denominator;
use vstd::arithmetic::div_mod::lemma_fundamental_div_mod_converse;
use crate::bits::all_bits;
use crate::bits::bin_value;
use crate::bits::bit_seq;
use crate::bits::lemma_bin_value_bit;
use crate::bits::lemma_bin_value_bound;
use crate::bits::lemma_bin_value_push;
use crate::bits::lemma_bin_value_reconstruct;
use crate::bits::lemma_bin_value_zero;
use crate::hash::DIGEST_WIDTH;

/// The length of a canonical digest in bytes.
pub const DIGEST_BYTES: usize = 72;

/// The number of bits of one field element in the stream.
pub const ELEMENT_BITS: usize = 9;

/// A digest vector fit for encoding: 64 elements, each representable in 9
/// bits.
pub open spec fn digest_encodable(v: Seq<u16>) -> bool {
    &&& v.len() == DIGEST_WIDTH
    &&& forall|i: int| 0 <= i < v.len() ==> #[trigger] v[i] < 512
}

/// Bit `i` of the 576-bit stream: bit `i % 9` of element `i / 9`.
pub open spec fn stream_bit(v: Seq<u16>, i: int) -> int {
    ((v[i / 9] as int) / (pow2((i % 9) as nat) as int)) % 2
}

/// The eight stream bits that make up output byte `j`, least-significant
/// first.
pub open spec fn byte_bits(v: Seq<u16>, j: int) -> Seq<int> {
    Seq::new(8, |k: int| stream_bit(v, 8 * j + k))
}

/// The value of output byte `j`.
pub open spec fn packed_byte(v: Seq<u16>, j: int) -> int {
    bin_value(byte_bits(v, j))
}

/// The canonical digest: 72 bytes packing the 576 stream bits.
pub open spec fn packed(v: Seq<u16>) -> Seq<u8> {
    Seq::new(DIGEST_BYTES as nat, |j: int| packed_byte(v, j) as u8)
}

/// Bit `i` of the stream read back from the bytes: bit `i % 8` of byte
/// `i / 8`.
pub open spec fn byte_stream_bit(bs: Seq<u8>, i: int) -> int {
    ((bs[i / 8] as int) / (pow2((i % 8) as nat) as int)) % 2
}

/// The nine stream bits of element `e`, least-significant first.
pub open spec fn element_bits(bs: Seq<u8>, e: int) -> Seq<int> {
    Seq::new(ELEMENT_BITS as nat, |r: int| byte_stream_bit(bs, 9 * e + r))
}

/// The digest vector read back from a canonical digest.
pub open spec fn unpacked(bs: Seq<u8>) -> Seq<u16> {
    Seq::new(DIGEST_WIDTH as nat, |e: int| bin_value(element_bits(bs, e)) as u16)
}

/// Bit `r` of `e`: the quotient of `e` by `2^r`, modulo 2.
fn element_bit(e: u16, r: usize) -> (b: u8)
    requires
        r < 16,
    ensures
        b as int == (e as int / pow2(r as nat) as int) % 2,
        b <= 1,
{
    proof {
        lemma2_to64();
    }
    let mut x = e;
    let mut k: usize = 0;
    while k < r
        invariant
            k <= r,
            r < 16,
            x as int == e as int / pow2(k as nat) as int,
        decreases r - k,
    {
        proof {
            lemma_pow2_pos(k as nat);
            lemma_pow2_unfold((k + 1) as nat);
            lemma_div_denominator(e as int, pow2(k as nat) as int, 2);
        }
        x = x / 2;
        k = k + 1;
    }
    (x % 2) as u8
}

/// The value of at most nine bits, least-significant first.
fn bits_value(bs: &Vec<u8>) -> (v: u16)
    requires
        bs@.len() <= 9,
        forall|i: int| 0 <= i < bs@.len() ==> #[trigger] bs@[i] <= 1,
    ensures
        v as int == bin_value(bits_as_ints(bs@)),
        v < 512,
{
    let mut v: u16 = 0;
    let mut w: u16 = 1;
    let n = bs.len();
    proof {
        lemma2_to64();
        assert(bits_as_ints(bs@).subrange(0, 0) =~= Seq::<int>::empty());
    }
    let mut k: usize = 0;
    while k < n
        invariant
            k <= n,
            n == bs@.len() <= 9,
            forall|i: int| 0 <= i < bs@.len() ==> #[trigger] bs@[i] <= 1,
            w as int == pow2(k as nat),
            v as int == bin_value(bits_as_ints(bs@).subrange(0, k as int)),
            v < w,
        decreases n - k,
    {
        proof {
            lemma2_to64();
            lemma_pow2_unfold((k + 1) as nat);
            vstd::arithmetic::power2::lemma_pow2_strictly_increases(k as nat, 9);
            let pre = bits_as_ints(bs@).subrange(0, k as int);
            assert(bits_as_ints(bs@).subrange(0, k as int + 1) =~= pre.push(bs@[k as int] as int));
            lemma_bin_value_push(pre, bs@[k as int] as int);
        }
        v = v + w * (bs[k] as u16);
        w = w * 2;
        k = k + 1;
    }
    proof {
        lemma2_to64();
        if n < 9 {
            vstd::arithmetic::power2::lemma_pow2_strictly_increases(n as nat, 9);
        }
        assert(bits_as_ints(bs@).subrange(0, n as int) =~= bits_as_ints(bs@));
    }
    v
}

/// The entries of a byte sequence as mathematical integers.
pub open spec fn bits_as_ints(bs: Seq<u8>) -> Seq<int> {
    Seq::new(bs.len(), |i: int| bs[i] as int)
}

/// Packs a digest vector of 64 nine-bit field elements into the canonical
/// 72-byte digest.
pub fn pack_digest(v: &Vec<u16>) -> (r: Vec<u8>)
    requires
        digest_encodable(v@),
    ensures
        r@ == packed(v@),
        r@.len() == DIGEST_BYTES,
{
    let mut r: Vec<u8> = Vec::new();
    let total = DIGEST_BYTES;
    for j in 0..total
        invariant
            total == DIGEST_BYTES,
            digest_encodable(v@),
            r@.len() == j,
            forall|h: int| 0 <= h < j ==> #[trigger] r@[h] == packed(v@)[h],
    {
        let mut bitbuf: Vec<u8> = Vec::new();
        for k in 0..8usize
            invariant
                digest_encodable(v@),
                j < DIGEST_BYTES,
                bitbuf@.len() == k,
                forall|m: int| 0 <= m < k ==> #[trigger] bitbuf@[m] as int == byte_bits(
                    v@,
                    j as int,
                )[m],
                forall|m: int| 0 <= m < k ==> #[trigger] bitbuf@[m] <= 1,
        {
            let i = 8 * j + k;
            let e = v[i / 9];
            let b = element_bit(e, i % 9);
            bitbuf.push(b);
        }
        proof {
            assert(bits_as_ints(bitbuf@) =~= byte_bits(v@, j as int));
            lemma_bin_value_bound(bits_as_ints(bitbuf@));
            lemma2_to64();
        }
        let byte = bits_value(&bitbuf);
        r.push(byte as u8);
    }
    proof {
        assert(r@ =~= packed(v@));
    }
    r
}

/// Unpacks a canonical 72-byte digest back into its 64 nine-bit field
/// elements, the inverse of `pack_digest`.
pub fn unpack_digest(bs: &Vec<u8>) -> (r: Vec<u16>)
    requires
        bs@.len() == DIGEST_BYTES,
    ensures
        r@ == unpacked(bs@),
        digest_encodable(r@),
{
    let mut r: Vec<u16> = Vec::new();
    let width = DIGEST_WIDTH;
    for e in 0..width
        invariant
            width == DIGEST_WIDTH,
            bs@.len() == DIGEST_BYTES,
            r@.len() == e,
            forall|h: int| 0 <= h < e ==> #[trigger] r@[h] == unpacked(bs@)[h],
            forall|h: int| 0 <= h < e ==> #[trigger] r@[h] < 512,
    {
        let mut bitbuf: Vec<u8> = Vec::new();
        for t in 0..ELEMENT_BITS
            invariant
                bs@.len() == DIGEST_BYTES,
                e < DIGEST_WIDTH,
                bitbuf@.len() == t,
                forall|m: int| 0 <= m < t ==> #[trigger] bitbuf@[m] as int == element_bits(
                    bs@,
                    e as int,
                )[m],
                forall|m: int| 0 <= m < t ==> #[trigger] bitbuf@[m] <= 1,
        {
            let i = 9 * e + t;
            let byte = bs[i / 8];
            let b = element_bit(byte as u16, i % 8);
            bitbuf.push(b);
        }
        proof {
            assert(bits_as_ints(bitbuf@) =~= element_bits(bs@, e as int));
        }
        let value = bits_value(&bitbuf);
        r.push(value);
    }
    proof {
        assert(r@ =~= unpacked(bs@));
    }
    r
}

/// Every stream bit is a single bit.
proof fn lemma_byte_bits_are_bits(v: Seq<u16>, j: int)
    requires
        digest_encodable(v),
        0 <= j < DIGEST_BYTES,
    ensures
        all_bits(byte_bits(v, j)),
{
    assert forall|k: int| 0 <= k < byte_bits(v, j).len() implies 0 <= #[trigger] byte_bits(v, j)[k]
        <= 1 by {
        assert(byte_bits(v, j)[k] == stream_bit(v, 8 * j + k));
    }
}

/// Packing a digest vector and unpacking the result reproduces the vector:
/// the canonical encoding loses nothing and the decoding of §`unpack_digest`
/// is its exact inverse.
pub proof fn lemma_unpacked_packed(v: Seq<u16>)
    requires
        digest_encodable(v),
    ensures
        unpacked(packed(v)) == v,
{
    let p = packed(v);
    lemma2_to64();
    assert forall|e: int| 0 <= e < DIGEST_WIDTH implies unpacked(p)[e] == v[e] by {
        assert forall|t: int| 0 <= t < 9 implies element_bits(p, e)[t] == bit_seq(
            v[e] as int,
            9,
        )[t] by {
            let i = 9 * e + t;
            let j = i / 8;
            let kb = i % 8;
            vstd::arithmetic::div_mod::lemma_fundamental_div_mod(i, 8);
            assert(0 <= j < 72);
            lemma_byte_bits_are_bits(v, j);
            lemma_bin_value_bound(byte_bits(v, j));
            lemma2_to64();
            assert(0 <= packed_byte(v, j) < 256);
            assert(p[j] as int == packed_byte(v, j));
            lemma_bin_value_bit(byte_bits(v, j), kb);
            assert(byte_stream_bit(p, i) == byte_bits(v, j)[kb]);
            assert(byte_bits(v, j)[kb] == stream_bit(v, 8 * j + kb));
            assert(8 * j + kb == i);
            lemma_fundamental_div_mod_converse(i, 9, e, t);
            assert(stream_bit(v, i) == (v[e] as int / pow2(t as nat) as int) % 2);
        }
        assert(element_bits(p, e) =~= bit_seq(v[e] as int, 9));
        assert(pow2(9) == 512);
        lemma_bin_value_reconstruct(v[e] as int, 9);
    }
    assert(unpacked(p) =~= v);
}

/// Two distinct encodable digest vectors have distinct canonical digests: the
/// packing is injective, so the composition cannot lose the primitive's
/// collision resistance at the serialization step.
pub proof fn lemma_packed_injective(a: Seq<u16>, b: Seq<u16>)
    requires
        digest_encodable(a),
        digest_encodable(b),
        packed(a) == packed(b),
    ensures
        a == b,
{
    lemma_unpacked_packed(a);
    lemma_unpacked_packed(b);
}

/// The canonical digest of the all-zero digest vector is 72 zero bytes.
pub proof fn lemma_packed_zero(v: Seq<u16>)
    requires
        v.len() == DIGEST_WIDTH,
        forall|i: int| 0 <= i < v.len() ==> #[trigger] v[i] == 0,
    ensures
        packed(v) == Seq::new(DIGEST_BYTES as nat, |j: int| 0u8),
{
    assert forall|j: int| 0 <= j < DIGEST_BYTES implies packed(v)[j] == 0u8 by {
        assert forall|k: int| 0 <= k < byte_bits(v, j).len() implies #[trigger] byte_bits(v, j)[k]
            == 0 by {
            let i = 8 * j + k;
            lemma_pow2_pos((i % 9) as nat);
            lemma_fundamental_div_mod_converse(0, pow2((i % 9) as nat) as int, 0, 0);
            assert(byte_bits(v, j)[k] == stream_bit(v, i));
        }
        lemma_bin_value_zero(byte_bits(v, j));
    }
    assert(packed(v) =~= Seq::new(DIGEST_BYTES as nat, |j: int| 0u8));
}

} // verus!
