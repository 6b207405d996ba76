use block_header_sync::{BlockHeaderSync, EthAddress, Header, PublicKey, Signature, SyncError, H256};
use sha2::{Digest, Sha256};

type Hasher = fn(&[u8]) -> [u8; 32];
type Verifier = fn(&[u8], &[u8], &[u8]) -> bool;

fn sha256(data: &[u8]) -> [u8; 32] {
    Sha256::digest(data).into()
}

/// Stands for secp256k1: a signature is the signer's number, then the message.
fn secp_stub(key: &[u8], message: &[u8], signature: &[u8]) -> bool {
    signature[0] == key[0] && &signature[1..1 + message.len()] == message
}

/// Stands for Ed25519: as above, with the signer's number plus one.
fn ed_stub(key: &[u8], message: &[u8], signature: &[u8]) -> bool {
    signature[0] == key[0].wrapping_add(1) && &signature[1..1 + message.len()] == message
}

fn yes(_key: &[u8], _message: &[u8], _signature: &[u8]) -> bool {
    true
}

fn client() -> BlockHeaderSync<Hasher, Verifier, Verifier> {
    BlockHeaderSync::new(sha256 as Hasher, secp_stub as Verifier, ed_stub as Verifier)
}

fn credulous() -> BlockHeaderSync<Hasher, Verifier, Verifier> {
    BlockHeaderSync::new(sha256 as Hasher, yes as Verifier, yes as Verifier)
}

fn key(tag: u8, id: u8) -> PublicKey {
    let mut bytes = [0u8; 67];
    bytes[0] = tag;
    bytes[1] = id;
    PublicKey(bytes)
}

fn signature(tag: u8, id: u8, message: &[u8]) -> Signature {
    let mut bytes = [0u8; 65];
    bytes[0] = tag;
    bytes[1] = id;
    bytes[2..2 + message.len()].copy_from_slice(message);
    Signature(bytes)
}

fn header() -> Header {
    Header {
        version: 1,
        chain_id: 2,
        prev_block_hash: H256([0x11; 32]),
        transactions_root: H256([0x22; 32]),
        cross_state_root: H256([0x33; 32]),
        block_root: H256([0x44; 32]),
        timestamp: 1577836800,
        height: 10,
        consensus_data: 0x0102030405060708,
        consensus_payload: None,
        next_book_keeper: EthAddress([0x55; 20]),
        book_keepers: vec![],
        sig_data: vec![],
        block_hash: H256([0x66; 32]),
    }
}

const MESSAGE: [u8; 32] = [0xA5; 32];

#[test]
fn the_digest_is_sha256_twice_of_the_signed_part() {
    let expected: [u8; 32] = [
        89, 143, 65, 91, 34, 144, 61, 74, 179, 90, 100, 243, 168, 187, 171, 11, 187, 61, 95, 30,
        254, 41, 18, 77, 35, 86, 239, 174, 7, 79, 194, 152,
    ];
    let digest = client().hash_header(&header());
    assert_eq!(digest, H256(expected));
    let once = sha256(&header().get_partial_serialized());
    assert_ne!(digest, H256(once));
    assert_eq!(digest, H256(sha256(&once)));
}

#[test]
fn the_digest_ignores_signers_signatures_and_declared_hash() {
    let mut other = header();
    other.book_keepers = vec![key(0x12, 1)];
    other.sig_data = vec![signature(9, 1, &MESSAGE)];
    other.block_hash = H256([0; 32]);
    assert_eq!(client().hash_header(&other), client().hash_header(&header()));
    let mut changed = header();
    changed.consensus_data = 0;
    assert_ne!(client().hash_header(&changed), client().hash_header(&header()));
}

#[test]
fn an_ecdsa_key_verifies_the_sm3_scheme_on_secp256k1() {
    let client = client();
    let key = key(0x12, 7);
    assert!(client.verify(&key, &MESSAGE, &signature(9, 7, &MESSAGE)));
    assert!(!client.verify(&key, &MESSAGE, &signature(9, 8, &MESSAGE)));
    assert!(!client.verify(&key, &MESSAGE, &signature(9, 6, &MESSAGE)));
    assert!(!client.verify(&key, &[0x5A; 32], &signature(9, 7, &MESSAGE)));
}

#[test]
fn an_sm2_key_verifies_the_eddsa_scheme_as_ed25519() {
    let client = client();
    let key = key(0x13, 7);
    assert!(client.verify(&key, &MESSAGE, &signature(10, 8, &MESSAGE)));
    assert!(!client.verify(&key, &MESSAGE, &signature(10, 7, &MESSAGE)));
}

#[test]
fn every_other_pair_of_algorithm_and_scheme_fails() {
    let client = credulous();
    for tag in 0..=255u8 {
        let accepted_by_ecdsa = client.verify(&key(0x12, 1), &MESSAGE, &signature(tag, 1, &MESSAGE));
        assert_eq!(accepted_by_ecdsa, tag == 9);
        let accepted_by_sm2 = client.verify(&key(0x13, 1), &MESSAGE, &signature(tag, 1, &MESSAGE));
        assert_eq!(accepted_by_sm2, tag == 10);
        for unknown in [0x00u8, 0x11, 0x14, 0xFF] {
            assert!(!client.verify(&key(unknown, 1), &MESSAGE, &signature(tag, 1, &MESSAGE)));
        }
    }
}

#[test]
fn empty_data_never_verifies() {
    let client = credulous();
    assert!(client.verify(&key(0x12, 1), &[0], &signature(9, 1, &[])));
    assert!(!client.verify(&key(0x12, 1), &[], &signature(9, 1, &[])));
    assert!(!client.verify(&key(0x13, 1), &[], &signature(10, 1, &[])));
    assert!(!client.verify(&key(0x14, 1), &[], &signature(10, 1, &[])));
}

#[test]
fn signatures_in_order_match() {
    let keys = [key(0x12, 1), key(0x12, 2), key(0x12, 3)];
    let sigs = [signature(9, 1, &MESSAGE), signature(9, 2, &MESSAGE), signature(9, 3, &MESSAGE)];
    assert_eq!(client().verify_multi_signature(&MESSAGE, &keys, 3, &sigs), Ok(()));
}

#[test]
fn signatures_in_any_order_match() {
    let keys = [key(0x12, 1), key(0x12, 2), key(0x12, 3)];
    let orders: [[u8; 3]; 6] = [[1, 2, 3], [1, 3, 2], [2, 1, 3], [2, 3, 1], [3, 1, 2], [3, 2, 1]];
    for order in orders {
        let sigs: Vec<Signature> = order.iter().map(|id| signature(9, *id, &MESSAGE)).collect();
        assert_eq!(client().verify_multi_signature(&MESSAGE, &keys, 3, &sigs), Ok(()));
    }
    for order in orders {
        let sigs = [
            signature(9, order[0], &MESSAGE),
            signature(9, order[1], &MESSAGE),
            signature(9, 4, &MESSAGE),
        ];
        let shuffled = [sigs[order[0] as usize - 1], sigs[order[1] as usize - 1], sigs[order[2] as usize - 1]];
        assert_eq!(
            client().verify_multi_signature(&MESSAGE, &keys, 3, &shuffled),
            Err(SyncError::SignatureMismatch)
        );
    }
}

#[test]
fn mixed_algorithms_match() {
    let keys = [key(0x13, 5), key(0x12, 1)];
    let sigs = [signature(9, 1, &MESSAGE), signature(10, 6, &MESSAGE)];
    assert_eq!(client().verify_multi_signature(&MESSAGE, &keys, 2, &sigs), Ok(()));
}

#[test]
fn too_few_signatures_are_refused_first() {
    let keys = [key(0x12, 1), key(0x12, 2)];
    let sigs = [signature(9, 9, &MESSAGE)];
    assert_eq!(
        client().verify_multi_signature(&MESSAGE, &keys, 2, &sigs),
        Err(SyncError::InsufficientSignatures)
    );
    assert_eq!(
        client().verify_multi_signature(&MESSAGE, &keys, 1, &[]),
        Err(SyncError::InsufficientSignatures)
    );
    assert_eq!(
        client().verify_multi_signature(&MESSAGE, &keys, 1, &sigs),
        Err(SyncError::SignatureMismatch)
    );
}

#[test]
fn no_signatures_and_no_minimum_succeed() {
    assert_eq!(client().verify_multi_signature(&MESSAGE, &[], 0, &[]), Ok(()));
    assert_eq!(client().verify_multi_signature(&MESSAGE, &[key(0x12, 1)], 0, &[]), Ok(()));
}

#[test]
fn a_key_serves_one_signature_only() {
    let keys = [key(0x12, 1), key(0x12, 2)];
    let twice = [signature(9, 1, &MESSAGE), signature(9, 1, &MESSAGE)];
    assert_eq!(
        client().verify_multi_signature(&MESSAGE, &keys, 2, &twice),
        Err(SyncError::SignatureMismatch)
    );
    let doubled = [key(0x12, 1), key(0x12, 1)];
    assert_eq!(client().verify_multi_signature(&MESSAGE, &doubled, 2, &twice), Ok(()));
}

#[test]
fn more_signatures_than_keys_fail() {
    let keys = [key(0x12, 1)];
    let sigs = [signature(9, 1, &MESSAGE), signature(9, 1, &MESSAGE)];
    assert_eq!(
        client().verify_multi_signature(&MESSAGE, &keys, 1, &sigs),
        Err(SyncError::SignatureMismatch)
    );
    assert_eq!(
        client().verify_multi_signature(&MESSAGE, &[], 0, &sigs),
        Err(SyncError::SignatureMismatch)
    );
}

#[test]
fn a_signature_of_unknown_scheme_fails_the_whole() {
    let keys = [key(0x12, 1), key(0x12, 2)];
    let sigs = [signature(9, 1, &MESSAGE), signature(0xFF, 2, &MESSAGE)];
    assert_eq!(
        credulous().verify_multi_signature(&MESSAGE, &keys, 2, &sigs),
        Err(SyncError::SignatureMismatch)
    );
}

/// Stands for a check under which the first signature verifies under both keys and the
/// second under the first key only.
fn overlapping(key: &[u8], _message: &[u8], signature: &[u8]) -> bool {
    signature[0] == 0 || key[0] == 0
}

#[test]
fn the_first_free_key_is_taken_even_where_another_would_do_better() {
    let client = BlockHeaderSync::new(sha256 as Hasher, overlapping as Verifier, yes as Verifier);
    let keys = [key(0x12, 0), key(0x12, 1)];
    let sigs = [signature(9, 0, &MESSAGE), signature(9, 1, &MESSAGE)];
    assert_eq!(
        client.verify_multi_signature(&MESSAGE, &keys, 2, &sigs),
        Err(SyncError::SignatureMismatch)
    );
    let swapped = [sigs[1], sigs[0]];
    assert_eq!(client.verify_multi_signature(&MESSAGE, &keys, 2, &swapped), Ok(()));
}
