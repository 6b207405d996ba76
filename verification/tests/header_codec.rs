use block_header_sync::esdt_payment::EsdtPayment;
use block_header_sync::zero_copy_sink::ZeroCopySink;
use block_header_sync::zero_copy_source::ZeroCopySource;
use block_header_sync::{
    ChainConfig, ConsensusPayload, DecodeError, EthAddress, Header, PeerConfig, PublicKey,
    Signature, H256,
};

fn key(id: u8) -> PublicKey {
    let mut bytes = [0u8; 67];
    bytes[0] = 0x12;
    bytes[1] = id;
    bytes[66] = id ^ 0xFF;
    PublicKey(bytes)
}

fn signature(id: u8) -> Signature {
    let mut bytes = [0u8; 65];
    bytes[0] = 9;
    bytes[1] = id;
    bytes[64] = id;
    Signature(bytes)
}

fn plain_header() -> Header {
    Header {
        version: 1,
        chain_id: 2,
        prev_block_hash: H256([0x11; 32]),
        transactions_root: H256([0x22; 32]),
        cross_state_root: H256([0x33; 32]),
        block_root: H256([0x44; 32]),
        timestamp: 1577836800,
        height: 10,
        consensus_data: 0x0102030405060708,
        consensus_payload: None,
        next_book_keeper: EthAddress([0x55; 20]),
        book_keepers: vec![key(1), key(2)],
        sig_data: vec![signature(2), signature(1), signature(3)],
        block_hash: H256([0x66; 32]),
    }
}

fn epoch_header() -> Header {
    let mut header = plain_header();
    header.height = 60000;
    header.consensus_payload = Some(ConsensusPayload {
        new_chain_config: Some(ChainConfig {
            peers: vec![PeerConfig::new(key(7)), PeerConfig::new(key(8)), PeerConfig::new(key(9))],
        }),
    });
    header
}

fn encode(header: &Header) -> Vec<u8> {
    let mut bytes = Vec::new();
    header.dep_encode(&mut bytes);
    bytes
}

fn expected_partial() -> Vec<u8> {
    let mut bytes = vec![1, 0, 0, 0];
    bytes.extend_from_slice(&[2, 0, 0, 0, 0, 0, 0, 0]);
    bytes.extend_from_slice(&[0x11; 32]);
    bytes.extend_from_slice(&[0x22; 32]);
    bytes.extend_from_slice(&[0x33; 32]);
    bytes.extend_from_slice(&[0x44; 32]);
    bytes.extend_from_slice(&[0x00, 0xE1, 0x0B, 0x5E]);
    bytes.extend_from_slice(&[10, 0, 0, 0]);
    bytes.extend_from_slice(&[8, 7, 6, 5, 4, 3, 2, 1]);
    bytes.push(0);
    bytes.extend_from_slice(&[0x55; 20]);
    bytes
}

#[test]
fn the_signed_part_ends_with_the_next_book_keeper() {
    let header = plain_header();
    let partial = header.get_partial_serialized();
    assert_eq!(partial.len(), 177);
    assert_eq!(partial, expected_partial());
    assert_eq!(header.serialize_partial().get_sink(), partial);
}

#[test]
fn the_signed_part_leaves_out_signers_signatures_and_hash() {
    let header = plain_header();
    let mut other = plain_header();
    other.book_keepers = vec![key(9)];
    other.sig_data = vec![];
    other.block_hash = H256([0; 32]);
    assert_eq!(header.get_partial_serialized(), other.get_partial_serialized());
    let mut changed = plain_header();
    changed.height = 11;
    assert_ne!(header.get_partial_serialized(), changed.get_partial_serialized());
}

#[test]
fn the_full_encoding_appends_signers_signatures_and_hash() {
    let header = plain_header();
    let bytes = encode(&header);
    let mut expected = expected_partial();
    expected.push(2);
    expected.extend_from_slice(key(1).as_slice());
    expected.extend_from_slice(key(2).as_slice());
    expected.push(3);
    expected.extend_from_slice(signature(2).as_slice());
    expected.extend_from_slice(signature(1).as_slice());
    expected.extend_from_slice(signature(3).as_slice());
    expected.extend_from_slice(&[0x66; 32]);
    assert_eq!(bytes, expected);
    assert_eq!(bytes.len(), 177 + 1 + 2 * 67 + 1 + 3 * 65 + 32);
}

#[test]
fn encoding_appends_to_what_is_there() {
    let header = plain_header();
    let mut bytes = vec![0xEE, 0xEE];
    header.dep_encode(&mut bytes);
    assert_eq!(&bytes[..2], &[0xEE, 0xEE]);
    assert_eq!(&bytes[2..], &encode(&header)[..]);
}

#[test]
fn a_payload_is_announced_by_a_tag() {
    let header = epoch_header();
    let partial = header.get_partial_serialized();
    assert_eq!(partial.len(), 156 + 1 + 1 + 1 + 3 * 67 + 20);
    assert_eq!(&partial[156..159], &[1, 1, 3]);
    assert_eq!(&partial[159..226], key(7).as_slice());
    let mut without = epoch_header();
    without.consensus_payload = Some(ConsensusPayload { new_chain_config: None });
    let partial = without.get_partial_serialized();
    assert_eq!(partial.len(), 156 + 2 + 20);
    assert_eq!(&partial[156..158], &[1, 0]);
}

#[test]
fn decoding_an_encoded_header_gives_it_back() {
    for header in [plain_header(), epoch_header()] {
        let bytes = encode(&header);
        assert_eq!(Header::dep_decode(&bytes), Ok(header));
    }
    let mut bare = plain_header();
    bare.book_keepers = vec![];
    bare.sig_data = vec![];
    assert_eq!(Header::dep_decode(&encode(&bare)), Ok(bare));
    let mut no_config = plain_header();
    no_config.consensus_payload = Some(ConsensusPayload { new_chain_config: None });
    assert_eq!(Header::dep_decode(&encode(&no_config)), Ok(no_config));
    let mut no_peers = plain_header();
    no_peers.consensus_payload =
        Some(ConsensusPayload { new_chain_config: Some(ChainConfig { peers: vec![] }) });
    assert_eq!(Header::dep_decode(&encode(&no_peers)), Ok(no_peers));
}

#[test]
fn a_copy_has_the_same_content() {
    for header in [plain_header(), epoch_header()] {
        let copy = header.clone();
        assert_eq!(copy, header);
        assert_eq!(encode(&copy), encode(&header));
    }
    let payment = EsdtPayment { sender: vec![1], receiver: vec![2, 3], token_id: vec![], amount: vec![9] };
    assert_eq!(payment.clone(), payment);
}

#[test]
fn a_header_with_many_signers_round_trips() {
    let mut header = plain_header();
    header.book_keepers = (0..300).map(|i| key((i % 251) as u8)).collect();
    header.sig_data = (0..260).map(|i| signature((i % 251) as u8)).collect();
    let bytes = encode(&header);
    assert_eq!(&bytes[177..180], &[0xFD, 0x2C, 0x01]);
    assert_eq!(Header::dep_decode(&bytes), Ok(header));
}

#[test]
fn a_truncated_header_is_too_short() {
    for header in [plain_header(), epoch_header()] {
        let bytes = encode(&header);
        for cut in 0..bytes.len() {
            assert_eq!(Header::dep_decode(&bytes[..cut]), Err(DecodeError::InputTooShort));
        }
    }
}

#[test]
fn bytes_after_a_header_are_left_alone() {
    let header = epoch_header();
    let mut bytes = encode(&header);
    let len = bytes.len();
    bytes.extend_from_slice(&[1, 2, 3]);
    assert_eq!(Header::dep_decode(&bytes), Ok(epoch_header()));
    let mut source = ZeroCopySource::new(&bytes);
    assert_eq!(Header::decode_from_source(&mut source), Ok(header));
    assert_eq!(source.pos(), len);
    assert_eq!(source.next_u8(), Some(1));
}

#[test]
fn two_headers_in_a_row_are_read_in_turn() {
    let mut bytes = encode(&plain_header());
    bytes.extend_from_slice(&encode(&epoch_header()));
    let mut source = ZeroCopySource::new(&bytes);
    assert_eq!(Header::decode_from_source(&mut source), Ok(plain_header()));
    assert_eq!(Header::decode_from_source(&mut source), Ok(epoch_header()));
    assert_eq!(Header::decode_from_source(&mut source), Err(DecodeError::InputTooShort));
    assert_eq!(source.len(), 0);
}

#[test]
fn a_failed_decode_leaves_the_cursor() {
    let mut bytes = vec![0xEE];
    bytes.extend_from_slice(&encode(&plain_header()));
    let short = &bytes[..bytes.len() - 1];
    let mut source = ZeroCopySource::new(short);
    assert_eq!(source.next_u8(), Some(0xEE));
    assert_eq!(Header::decode_from_source(&mut source), Err(DecodeError::InputTooShort));
    assert_eq!(source.pos(), 1);
    let mut bad = vec![0xEE];
    bad.extend_from_slice(&encode(&plain_header()));
    bad[157] = 7;
    let mut source = ZeroCopySource::new(&bad);
    assert_eq!(source.next_u8(), Some(0xEE));
    assert_eq!(Header::decode_from_source(&mut source), Err(DecodeError::InvalidValue));
    assert_eq!(source.pos(), 1);
}

#[test]
fn an_unknown_payload_tag_is_an_invalid_value() {
    let mut bytes = encode(&plain_header());
    bytes[156] = 2;
    assert_eq!(Header::dep_decode(&bytes), Err(DecodeError::InvalidValue));
    bytes[156] = 0xFF;
    assert_eq!(Header::dep_decode(&bytes), Err(DecodeError::InvalidValue));
    assert_eq!(Header::dep_decode(&bytes[..157]), Err(DecodeError::InvalidValue));
}

#[test]
fn an_unknown_configuration_tag_is_an_invalid_value() {
    let mut bytes = encode(&epoch_header());
    assert_eq!(bytes[157], 1);
    bytes[157] = 2;
    assert_eq!(Header::dep_decode(&bytes), Err(DecodeError::InvalidValue));
}

#[test]
fn a_signer_count_beyond_the_input_is_too_short() {
    let mut bytes = encode(&plain_header());
    bytes[177] = 20;
    assert_eq!(Header::dep_decode(&bytes), Err(DecodeError::InputTooShort));
    let mut huge = expected_partial();
    huge.extend_from_slice(&[0xFF; 9]);
    huge.extend_from_slice(&[0; 200]);
    assert_eq!(Header::dep_decode(&huge), Err(DecodeError::InputTooShort));
}

#[test]
fn a_payload_round_trips_by_itself() {
    let payload = ConsensusPayload {
        new_chain_config: Some(ChainConfig {
            peers: vec![PeerConfig::new(key(1)), PeerConfig::new(key(2))],
        }),
    };
    let mut sink = ZeroCopySink::new();
    payload.dep_encode(&mut sink);
    let bytes = sink.get_sink();
    assert_eq!(bytes.len(), 1 + 1 + 2 * 67);
    let mut source = ZeroCopySource::new(&bytes);
    assert_eq!(ConsensusPayload::decode_from_source(&mut source), Ok(payload));
    assert_eq!(source.len(), 0);
    let mut source = ZeroCopySource::new(&bytes[..100]);
    assert_eq!(
        ConsensusPayload::decode_from_source(&mut source),
        Err(DecodeError::InputTooShort)
    );
    assert_eq!(source.pos(), 0);
    let mut source = ZeroCopySource::new(&[9u8]);
    assert_eq!(ConsensusPayload::decode_from_source(&mut source), Err(DecodeError::InvalidValue));
}

#[test]
fn a_configuration_round_trips_by_itself() {
    let config = ChainConfig { peers: vec![PeerConfig::new(key(5))] };
    let mut sink = ZeroCopySink::new();
    config.dep_encode(&mut sink);
    let bytes = sink.get_sink();
    assert_eq!(bytes[0], 1);
    assert_eq!(&bytes[1..], key(5).as_slice());
    let mut source = ZeroCopySource::new(&bytes);
    assert_eq!(ChainConfig::decode_from_source(&mut source), Ok(config));
    let mut source = ZeroCopySource::new(&bytes[..67]);
    assert_eq!(ChainConfig::decode_from_source(&mut source), Err(DecodeError::InputTooShort));
    assert_eq!(source.pos(), 0);
}

#[test]
fn a_payment_round_trips() {
    let payment = EsdtPayment {
        sender: vec![1; 32],
        receiver: vec![2; 20],
        token_id: b"WEGLD-abcdef".to_vec(),
        amount: vec![0x0D, 0xE0, 0xB6, 0xB3, 0xA7, 0x64, 0x00, 0x00],
    };
    let mut bytes = vec![];
    payment.dep_encode(&mut bytes);
    assert_eq!(bytes.len(), 1 + 32 + 1 + 20 + 1 + 12 + 1 + 8);
    assert_eq!(bytes[0], 32);
    assert_eq!(bytes[33], 20);
    assert_eq!(&bytes[55..67], b"WEGLD-abcdef");
    assert_eq!(EsdtPayment::dep_decode(&bytes), Ok(payment));
    for cut in 0..bytes.len() {
        assert_eq!(EsdtPayment::dep_decode(&bytes[..cut]), Err(DecodeError::InputTooShort));
    }
}

#[test]
fn an_empty_payment_is_four_zero_lengths() {
    let payment = EsdtPayment { sender: vec![], receiver: vec![], token_id: vec![], amount: vec![] };
    let mut bytes = vec![];
    payment.dep_encode(&mut bytes);
    assert_eq!(bytes, vec![0, 0, 0, 0]);
    assert_eq!(EsdtPayment::dep_decode(&bytes), Ok(payment));
}
