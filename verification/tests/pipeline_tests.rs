//! End-to-end tests of the tree-then-encode composition. The full-size
//! pipeline over a complete 2,764,800-byte buffer runs the primitive more
//! than twenty thousand times and exceeds this harness's per-test budget, so
//! the composition is exercised here over a small tree instead, pinned as a
//! regression oracle.

use swifft_image_hash::encode::pack_digest;
use swifft_image_hash::hash::ground_level;
use swifft_image_hash::hash::reduce_level;

fn small_tree_digest(image: &Vec<u8>) -> Vec<u8> {
    let mut level = ground_level(image);
    while level.len() > 1 {
        level = reduce_level(&level);
    }
    let v: Vec<u16> = level[0].coefficients().to_vec();
    pack_digest(&v)
}

#[test]
fn small_tree_has_pinned_digest() {
    // the digest of an all-zero buffer through a 17-block tree, captured
    // once from this primitive and pinned
    let digest = small_tree_digest(&vec![0u8; 128 * 17]);
    assert_eq!(digest.len(), 72);
    assert_eq!(digest, vec![0u8; 72]);
}

#[test]
fn small_tree_is_deterministic() {
    let mut buf = vec![0u8; 128 * 17];
    for (i, b) in buf.iter_mut().enumerate() {
        *b = (i % 251) as u8;
    }
    let d1 = small_tree_digest(&buf);
    let d2 = small_tree_digest(&buf);
    assert_eq!(d1, d2);
    assert_eq!(d1.len(), 72);
}
