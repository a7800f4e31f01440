//! Tests of the canonical digest encoder: exact packed values, lengths, and
//! the pack/unpack round trip.

use swifft_image_hash::encode::pack_digest;
use swifft_image_hash::encode::unpack_digest;

#[test]
fn packs_all_zero_vector_to_zero_bytes() {
    let v: Vec<u16> = vec![0u16; 64];
    let d = pack_digest(&v);
    assert_eq!(d.len(), 72);
    assert_eq!(d, vec![0u8; 72]);
}

#[test]
fn packs_all_ones_vector_to_ff_bytes() {
    // 511 is the all-ones 9-bit value: every one of the 576 stream bits is
    // set, so every output byte is 0xFF.
    let v: Vec<u16> = vec![511u16; 64];
    let d = pack_digest(&v);
    assert_eq!(d, vec![0xFFu8; 72]);
}

#[test]
fn packs_exact_low_elements() {
    // Element 0 contributes stream bits 0..9, element 1 bits 9..18. With
    // v[0] = 1 only stream bit 0 is set (byte 0 = 0x01); with v[1] = 3,
    // stream bits 9 and 10 are set, which are bits 1 and 2 of byte 1 (0x06).
    let mut v: Vec<u16> = vec![0u16; 64];
    v[0] = 1;
    v[1] = 3;
    let d = pack_digest(&v);
    let mut expected = vec![0u8; 72];
    expected[0] = 0x01;
    expected[1] = 0x06;
    assert_eq!(d, expected);
}

#[test]
fn packs_highest_element_into_last_bytes() {
    // Element 63 contributes stream bits 567..576, the top bits of the
    // output: bit 567 is bit 7 of byte 70, bits 568..576 are byte 71.
    let mut v: Vec<u16> = vec![0u16; 64];
    v[63] = 0b1_1111_1111;
    let d = pack_digest(&v);
    let mut expected = vec![0u8; 72];
    expected[70] = 0x80;
    expected[71] = 0xFF;
    assert_eq!(d, expected);
}

#[test]
fn unpack_inverts_pack_for_all_ones() {
    let v: Vec<u16> = vec![511u16; 64];
    let d = pack_digest(&v);
    let u = unpack_digest(&d);
    assert_eq!(u, v);
}

#[test]
fn unpack_inverts_pack_for_mixed_values() {
    let mut v: Vec<u16> = Vec::new();
    for i in 0..64u16 {
        v.push((i * 37 + 5) % 512);
    }
    let d = pack_digest(&v);
    assert_eq!(d.len(), 72);
    let u = unpack_digest(&d);
    assert_eq!(u, v);
}

#[test]
fn pack_is_deterministic() {
    let mut v: Vec<u16> = Vec::new();
    for i in 0..64u16 {
        v.push((i * 211 + 9) % 512);
    }
    let d1 = pack_digest(&v);
    let d2 = pack_digest(&v);
    assert_eq!(d1, d2);
}

#[test]
fn distinct_vectors_pack_to_distinct_digests() {
    let mut a: Vec<u16> = vec![0u16; 64];
    let mut b: Vec<u16> = vec![0u16; 64];
    a[17] = 256;
    b[17] = 257;
    assert_ne!(pack_digest(&a), pack_digest(&b));
}
