use block_header_sync::hex_converter::byte_slice_to_hex;
use block_header_sync::util::{array_from_slice, bytes_eq, copy_vec, POLYCHAIN_EPOCH_HEIGHT};
use block_header_sync::{
    EllipticCurveAlgorithm, EthAddress, Header, PeerConfig, PublicKey, Signature, SignatureScheme,
    SyncError, H256,
};

fn header_at(height: u32) -> Header {
    Header {
        version: 0,
        chain_id: 0,
        prev_block_hash: H256([0; 32]),
        transactions_root: H256([0; 32]),
        cross_state_root: H256([0; 32]),
        block_root: H256([0; 32]),
        timestamp: 0,
        height,
        consensus_data: 0,
        consensus_payload: None,
        next_book_keeper: EthAddress([0; 20]),
        book_keepers: vec![],
        sig_data: vec![],
        block_hash: H256([0; 32]),
    }
}

#[test]
fn a_long_slice_gives_its_first_bytes() {
    let bytes: Vec<u8> = (0..100).collect();
    let address = EthAddress::from(&bytes[..]);
    assert_eq!(address.as_slice(), &bytes[..20]);
    let key = PublicKey::from(&bytes[..]);
    assert_eq!(key.as_slice(), &bytes[..67]);
    let signature = Signature::from(&bytes[..]);
    assert_eq!(signature.as_slice(), &bytes[..65]);
    let hash = H256::from(&bytes[..]);
    assert_eq!(hash.as_slice(), &bytes[..32]);
}

#[test]
fn an_exact_slice_is_taken_whole() {
    let bytes = [7u8; 20];
    assert_eq!(EthAddress::from(&bytes[..]), EthAddress([7; 20]));
    let bytes = [8u8; 67];
    assert_eq!(PublicKey::from(&bytes[..]), PublicKey([8; 67]));
    let bytes = [9u8; 65];
    assert_eq!(Signature::from(&bytes[..]), Signature([9; 65]));
}

#[test]
fn a_short_slice_gives_zeros() {
    let bytes = [7u8; 19];
    assert_eq!(EthAddress::from(&bytes[..]), EthAddress([0; 20]));
    let bytes = [7u8; 66];
    assert_eq!(PublicKey::from(&bytes[..]), PublicKey([0; 67]));
    let bytes = [7u8; 64];
    assert_eq!(Signature::from(&bytes[..]), Signature([0; 65]));
    let bytes = [7u8; 31];
    assert_eq!(H256::from(&bytes[..]), H256([0; 32]));
    assert_eq!(array_from_slice::<4>(&[]), [0u8; 4]);
    assert_eq!(array_from_slice::<0>(&[1, 2]), [0u8; 0]);
}

#[test]
fn the_first_byte_of_a_key_names_its_algorithm() {
    let mut bytes = [0u8; 67];
    bytes[0] = 0x12;
    assert_eq!(PublicKey(bytes).algorithm(), EllipticCurveAlgorithm::ECDSA);
    bytes[0] = 0x13;
    assert_eq!(PublicKey(bytes).algorithm(), EllipticCurveAlgorithm::SM2);
    for tag in [0x00u8, 0x11, 0x14, 0xFF] {
        bytes[0] = tag;
        assert_eq!(PublicKey(bytes).algorithm(), EllipticCurveAlgorithm::Unknown);
    }
}

#[test]
fn the_first_byte_of_a_signature_names_its_scheme() {
    let expected = [
        SignatureScheme::SHA224withECDSA,
        SignatureScheme::SHA256withECDSA,
        SignatureScheme::SHA384withECDSA,
        SignatureScheme::SHA512withECDSA,
        SignatureScheme::SHA3_224withECDSA,
        SignatureScheme::SHA3_256withECDSA,
        SignatureScheme::SHA3_384withECDSA,
        SignatureScheme::SHA3_512withECDSA,
        SignatureScheme::RIPEMD160withECDSA,
        SignatureScheme::SM3withSM2,
        SignatureScheme::SHA512withEDDSA,
    ];
    let mut bytes = [0u8; 65];
    for (tag, scheme) in expected.iter().enumerate() {
        bytes[0] = tag as u8;
        assert_eq!(Signature(bytes).scheme(), *scheme);
    }
    for tag in [11u8, 12, 0x80, 0xFF] {
        bytes[0] = tag;
        assert_eq!(Signature(bytes).scheme(), SignatureScheme::Unknown);
    }
}

#[test]
fn the_payload_is_what_follows_the_tag() {
    let bytes: Vec<u8> = (0..67).collect();
    let key = PublicKey::from(&bytes[..]);
    assert_eq!(key.value_as_slice(), &bytes[1..67]);
    let signature = Signature::from(&bytes[..]);
    assert_eq!(signature.value_as_slice(), &bytes[1..65]);
}

#[test]
fn hex_is_lower_case_high_digit_first() {
    assert_eq!(byte_slice_to_hex(&[]), Vec::<u8>::new());
    assert_eq!(byte_slice_to_hex(&[0x00, 0x09, 0x0A, 0xAB, 0xF0, 0xFF]), b"00090aabf0ff".to_vec());
    assert_eq!(byte_slice_to_hex(&[0x12, 0x34]), b"1234".to_vec());
}

#[test]
fn a_peer_is_named_by_the_hex_of_its_key() {
    let mut bytes = [0u8; 67];
    bytes[0] = 0x12;
    bytes[66] = 0xEF;
    let peer = PeerConfig::new(PublicKey(bytes));
    let id = peer.id();
    assert_eq!(id.len(), 134);
    assert_eq!(&id[..4], b"1200");
    assert_eq!(&id[132..], b"ef");
    assert_eq!(id, byte_slice_to_hex(peer.public_key.as_slice()));
    let other = PeerConfig::new(PublicKey([0u8; 67]));
    assert_ne!(other.id(), id);
}

#[test]
fn a_copied_vector_has_the_same_items() {
    assert_eq!(copy_vec(&vec![3u8, 1, 2]), vec![3u8, 1, 2]);
    assert_eq!(copy_vec(&Vec::<u32>::new()), Vec::<u32>::new());
}

#[test]
fn bytes_are_compared_by_content() {
    assert!(bytes_eq(&[], &[]));
    assert!(bytes_eq(&[1, 2, 3], &[1, 2, 3]));
    assert!(!bytes_eq(&[1, 2, 3], &[1, 2, 4]));
    assert!(!bytes_eq(&[1, 2, 3], &[1, 2]));
    assert!(!bytes_eq(&[], &[0]));
}

#[test]
fn epochs_start_every_sixty_thousand_blocks() {
    assert_eq!(POLYCHAIN_EPOCH_HEIGHT, 60000);
    assert!(header_at(0).is_start_of_epoch());
    assert!(header_at(60000).is_start_of_epoch());
    assert!(header_at(120000).is_start_of_epoch());
    assert!(!header_at(1).is_start_of_epoch());
    assert!(!header_at(59999).is_start_of_epoch());
    assert!(!header_at(u32::MAX).is_start_of_epoch());
}

#[test]
fn each_error_has_its_message() {
    assert_eq!(SyncError::AlreadyInitialized.message(), "Genesis header already set!");
    assert_eq!(SyncError::InvalidGenesisHeader.message(), "Invalid genesis header!");
    assert_eq!(SyncError::NoActiveConsensus.message(), "Couldn't find key height!");
    assert_eq!(
        SyncError::InsufficientBookkeepers.message(),
        "Header bookkeepers num must be > 2/3 of consensus num"
    );
    assert_eq!(SyncError::UnknownSigner.message(), "Invalid pubkey!");
    assert_eq!(SyncError::EmptyPeerList.message(), "Consensus peer list is empty!");
    assert_eq!(SyncError::InsufficientSignatures.message(), "Not enough signatures!");
    assert_eq!(SyncError::SignatureMismatch.message(), "Multi-signature verification failed!");
}
