//! The SWIFFT compression primitive, as the reduction tree uses it: the
//! polynomial type is carried through opaquely, and the two operations the
//! tree needs — parsing a raw byte block into a group of binary polynomials,
//! and compressing a group of polynomials into one — stand behind trusted
//! declarations whose contracts the rest of the library is proved against.

use vstd::prelude::*;

verus! {

use vstd::arithmetic::power2::pow2;
use swifft::polynomial::Polynomial;
use crate::hash::BLOCK_BYTES;
use crate::hash::FAN_IN;
use crate::hash::DIGEST_WIDTH;
use crate::hash::FIELD_MODULUS;

#[verifier::external_type_specification]
#[verifier::external_body]
pub struct ExPolynomial(Polynomial);

/// The coefficients a polynomial holds: an ordered sequence of field-element
/// values.
pub uninterp spec fn poly_coeffs(p: Polynomial) -> Seq<u16>;

/// What the compression primitive returns on a group of polynomials, given by
/// their coefficient sequences. The primitive is deterministic, so its result
/// is a function of the group alone; nothing further is assumed of it.
pub uninterp spec fn compressed(group: Seq<Seq<u16>>) -> Seq<u16>;

/// The coefficient sequences of a sequence of polynomials.
pub open spec fn coeff_seqs(ps: Seq<Polynomial>) -> Seq<Seq<u16>> {
    Seq::new(ps.len(), |i: int| poly_coeffs(ps[i]))
}

/// A well-formed digest vector: exactly `DIGEST_WIDTH` field elements, each
/// below the modulus.
pub open spec fn coeffs_wf(v: Seq<u16>) -> bool {
    &&& v.len() == DIGEST_WIDTH
    &&& forall|i: int| 0 <= i < v.len() ==> #[trigger] v[i] < FIELD_MODULUS
}

/// The all-zero digest vector, used to pad a short final group.
pub open spec fn zero_vector() -> Seq<u16> {
    Seq::new(DIGEST_WIDTH as nat, |i: int| 0u16)
}

/// Bit `p` of a byte block, counting the least-significant bit of each byte
/// first: bit `p` is bit `p % 8` of byte `p / 8`.
pub open spec fn block_bit(block: Seq<u8>, p: int) -> u16 {
    (((block[p / 8] as int) / (pow2((p % 8) as nat) as int)) % 2) as u16
}

/// Polynomial `j` parsed from a byte block: its 64 coefficients are bits
/// `64*j .. 64*j + 64` of the block, each 0 or 1.
pub open spec fn parsed_poly(block: Seq<u8>, j: int) -> Seq<u16> {
    Seq::new(DIGEST_WIDTH as nat, |c: int| block_bit(block, DIGEST_WIDTH * j + c))
}

/// The full group of `FAN_IN` polynomials parsed from one byte block.
pub open spec fn parsed_block(block: Seq<u8>) -> Seq<Seq<u16>> {
    Seq::new(FAN_IN as nat, |j: int| parsed_poly(block, j))
}

/// Relies on `swifft::constant::INPUT_BLOCK_SIZE`: the primitive ingests raw
/// input in blocks of 128 bytes (64 * 16 / 8).
#[verifier::external_body]
pub(crate) fn primitive_block_bytes() -> (r: usize)
    ensures
        r == BLOCK_BYTES,
{
    swifft::constant::INPUT_BLOCK_SIZE
}

/// Relies on `swifft::constant::M`: the primitive compresses groups of 16
/// polynomials.
#[verifier::external_body]
pub(crate) fn primitive_fan_in() -> (r: usize)
    ensures
        r == FAN_IN,
{
    swifft::constant::M
}

/// Relies on `swifft::polynomial::Polynomial::from_input_block`: it splits the
/// 128-byte block into 1024 bits, least-significant bit of each byte first,
/// and makes polynomial `j` from bits `64*j .. 64*j + 64`, as coefficients 0
/// or 1 (the reduction modulo 257 leaves them unchanged).
#[verifier::external_body]
pub(crate) fn parse_block(block: &Vec<u8>) -> (r: Vec<Polynomial>)
    requires
        block@.len() == BLOCK_BYTES,
    ensures
        r@.len() == FAN_IN,
        forall|j: int| 0 <= j < r@.len() ==> poly_coeffs(#[trigger] r@[j]) == parsed_poly(
            block@,
            j,
        ),
{
    let arr: [u8; swifft::constant::INPUT_BLOCK_SIZE] = block.as_slice().try_into().unwrap();
    Polynomial::from_input_block(&arr).to_vec()
}

/// Relies on `swifft::hash::swifft_hash`: it is deterministic — a pure
/// function of the 16 input polynomials' coefficients — and every coefficient
/// of its result lies below the modulus 257.
#[verifier::external_body]
pub(crate) fn compress_group(group: &Vec<Polynomial>) -> (r: Polynomial)
    requires
        group@.len() == FAN_IN,
    ensures
        poly_coeffs(r) == compressed(coeff_seqs(group@)),
        coeffs_wf(poly_coeffs(r)),
{
    let arr: [Polynomial; swifft::constant::M] = group.as_slice().try_into().unwrap();
    swifft::hash::swifft_hash(&arr)
}

/// Relies on `swifft::polynomial::Polynomial::ZERO`: the polynomial whose 64
/// coefficients are all zero.
#[verifier::external_body]
pub(crate) fn zero_poly() -> (r: Polynomial)
    ensures
        poly_coeffs(r) == zero_vector(),
{
    Polynomial::ZERO
}

/// Relies on `swifft::polynomial::Polynomial::coefficients`: it hands out the
/// polynomial's own coefficient array.
#[verifier::external_body]
pub(crate) fn poly_values(p: &Polynomial) -> (r: Vec<u16>)
    ensures
        r@ == poly_coeffs(*p),
{
    p.coefficients().to_vec()
}

/// Relies on `swifft::polynomial::Polynomial`'s `Clone` impl: it copies the
/// coefficient array.
pub assume_specification[ <Polynomial as Clone>::clone ](p: &Polynomial) -> (r: Polynomial)
    ensures
        poly_coeffs(r) == poly_coeffs(*p),
;

} // verus!
