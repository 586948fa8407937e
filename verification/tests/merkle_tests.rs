use ledger_sync::merkle::{merkle_hash, HASH_SIZE};
use sha2::{Digest, Sha256};

fn h(b: u8) -> ledger_sync::merkle::Hash {
    ledger_sync::merkle::Hash::from_bytes(vec![b; HASH_SIZE])
}

#[test]
fn merkle_empty_is_zero() {
    let r = merkle_hash(&Vec::new());
    assert_eq!(r.bytes, vec![0u8; 32]);
}

#[test]
fn merkle_single_is_identity() {
    let r = merkle_hash(&vec![h(9)]);
    assert_eq!(r.bytes, vec![9u8; 32]);
}

#[test]
fn merkle_deterministic() {
    let xs = vec![h(1), h(2), h(3), h(4), h(5)];
    let ys = vec![h(1), h(2), h(3), h(4), h(5)];
    assert_eq!(merkle_hash(&xs).bytes, merkle_hash(&ys).bytes);
}

#[test]
fn merkle_three_split_rule() {
    // For three leaves the left partition has next_power_of_two(3) / 2 == 2
    // elements: the commitment is sha256(sha256(h1 || h2) || h3).
    let r = merkle_hash(&vec![h(1), h(2), h(3)]);
    let mut left = Vec::new();
    left.extend_from_slice(&[1u8; 32]);
    left.extend_from_slice(&[2u8; 32]);
    let left_digest = Sha256::digest(&left);
    let mut top = Vec::new();
    top.extend_from_slice(&left_digest);
    top.extend_from_slice(&[3u8; 32]);
    let expected = Sha256::digest(&top);
    assert_eq!(r.bytes.as_slice(), expected.as_slice());
}

#[test]
fn merkle_two_concat_order() {
    // Two leaves: sha256(h1 || h2), left before right.
    let r = merkle_hash(&vec![h(4), h(7)]);
    let mut cat = Vec::new();
    cat.extend_from_slice(&[4u8; 32]);
    cat.extend_from_slice(&[7u8; 32]);
    let expected = Sha256::digest(&cat);
    assert_eq!(r.bytes.as_slice(), expected.as_slice());
}
