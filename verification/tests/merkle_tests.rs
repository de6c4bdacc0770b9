use monero_oracle::errors::OracleError;
use monero_oracle::merkle::{compute_output_merkle_root, compute_tx_merkle_root};
use monero_oracle::outputs::MoneroOutput;
use sha2::Digest;

fn keccak(data: &[u8]) -> Vec<u8> {
    sha3::Keccak256::digest(data).to_vec()
}

fn sha256(data: &[u8]) -> Vec<u8> {
    sha2::Sha256::digest(data).to_vec()
}

fn sample_output(tag: u8, index: u64) -> MoneroOutput {
    MoneroOutput {
        tx_hash: vec![tag; 32],
        output_index: index,
        ecdh_amount: vec![0x11; 32],
        output_pub_key: vec![0x22; 32],
        commitment: vec![0x33; 32],
    }
}

fn packed_leaf(o: &MoneroOutput) -> Vec<u8> {
    let mut data = Vec::new();
    data.extend_from_slice(&o.tx_hash);
    let mut idx = vec![0u8; 24];
    idx.extend_from_slice(&o.output_index.to_be_bytes());
    data.extend_from_slice(&idx);
    data.extend_from_slice(&o.ecdh_amount);
    data.extend_from_slice(&o.output_pub_key);
    data.extend_from_slice(&o.commitment);
    keccak(&data)
}

#[test]
fn test_compute_tx_merkle_root_empty() {
    let result = compute_tx_merkle_root(&vec![]).unwrap();
    assert_eq!(result, vec![0u8; 32]);
}

#[test]
fn test_compute_tx_merkle_root_single() {
    let hashes = vec!["a".repeat(64)];
    let result = compute_tx_merkle_root(&hashes).unwrap();
    assert_ne!(result, vec![0u8; 32]);
}

#[test]
fn test_compute_tx_merkle_root_multiple() {
    let hashes = vec!["a".repeat(64), "b".repeat(64), "c".repeat(64)];
    let result = compute_tx_merkle_root(&hashes).unwrap();
    assert_ne!(result, vec![0u8; 32]);
}

#[test]
fn test_compute_output_merkle_root_empty() {
    let result = compute_output_merkle_root(&Vec::new());
    assert_eq!(result, vec![0u8; 32]);
}

#[test]
fn tx_root_single_leaf_unchanged() {
    let hashes = vec!["a".repeat(64)];
    let result = compute_tx_merkle_root(&hashes).unwrap();
    assert_eq!(result, vec![0xaa; 32]);
}

#[test]
fn tx_root_two_leaves_matches_reference() {
    let hashes = vec!["a".repeat(64), "b".repeat(64)];
    let result = compute_tx_merkle_root(&hashes).unwrap();
    let mut pre = vec![0xaa; 32];
    pre.extend_from_slice(&[0xbb; 32]);
    assert_eq!(result, keccak(&pre));
}

#[test]
fn tx_root_odd_count_duplicates_trailing_leaf() {
    let hashes = vec!["a".repeat(64), "b".repeat(64), "c".repeat(64)];
    let result = compute_tx_merkle_root(&hashes).unwrap();
    let mut ab = vec![0xaa; 32];
    ab.extend_from_slice(&[0xbb; 32]);
    let left = keccak(&ab);
    let mut cc = vec![0xcc; 32];
    cc.extend_from_slice(&[0xcc; 32]);
    let right = keccak(&cc);
    let mut top = left.clone();
    top.extend_from_slice(&right);
    assert_eq!(result, keccak(&top));
}

#[test]
fn tx_root_deterministic_and_sensitive_to_leaves() {
    let hashes = vec!["a".repeat(64), "b".repeat(64), "c".repeat(64), "d".repeat(64)];
    let first = compute_tx_merkle_root(&hashes).unwrap();
    let second = compute_tx_merkle_root(&hashes).unwrap();
    assert_eq!(first, second);
    let changed = vec!["a".repeat(64), "b".repeat(64), "c".repeat(64), "e".repeat(64)];
    assert_ne!(compute_tx_merkle_root(&changed).unwrap(), first);
    let reordered = vec!["b".repeat(64), "a".repeat(64), "c".repeat(64), "d".repeat(64)];
    assert_ne!(compute_tx_merkle_root(&reordered).unwrap(), first);
}

#[test]
fn tx_root_rejects_malformed_entry() {
    let with_bad = vec!["a".repeat(64), "zz".repeat(32)];
    assert!(matches!(
        compute_tx_merkle_root(&with_bad),
        Err(OracleError::Encoding)
    ));
    let lone_bad = vec!["not-hex".to_string()];
    assert!(matches!(
        compute_tx_merkle_root(&lone_bad),
        Err(OracleError::Encoding)
    ));
    let wrong_length = vec!["a".repeat(64), "ab".to_string()];
    assert!(matches!(
        compute_tx_merkle_root(&wrong_length),
        Err(OracleError::Encoding)
    ));
}

#[test]
fn output_root_single_record_is_leaf() {
    let o = sample_output(0x44, 3);
    let expected = packed_leaf(&o);
    let result = compute_output_merkle_root(&vec![o]);
    assert_eq!(result, expected);
}

#[test]
fn output_root_two_records_matches_reference() {
    let a = sample_output(0x44, 0);
    let b = sample_output(0x55, 1);
    let mut pre = packed_leaf(&a);
    pre.extend_from_slice(&packed_leaf(&b));
    let expected = sha256(&pre);
    let result = compute_output_merkle_root(&vec![a, b]);
    assert_eq!(result, expected);
}

#[test]
fn output_root_odd_count_duplicates_trailing_leaf() {
    let a = sample_output(0x44, 0);
    let b = sample_output(0x55, 1);
    let c = sample_output(0x66, 2);
    let mut ab = packed_leaf(&a);
    ab.extend_from_slice(&packed_leaf(&b));
    let left = sha256(&ab);
    let mut cc = packed_leaf(&c);
    cc.extend_from_slice(&packed_leaf(&c));
    let right = sha256(&cc);
    let mut top = left.clone();
    top.extend_from_slice(&right);
    let result = compute_output_merkle_root(&vec![a, b, c]);
    assert_eq!(result, sha256(&top));
}

#[test]
fn output_root_rerun_is_identical() {
    let outs = vec![sample_output(1, 0), sample_output(2, 1), sample_output(3, 2)];
    let outs2 = vec![sample_output(1, 0), sample_output(2, 1), sample_output(3, 2)];
    assert_eq!(compute_output_merkle_root(&outs), compute_output_merkle_root(&outs2));
}
