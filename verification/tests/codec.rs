use block_header_sync::util::{EthAddress, H256};
use block_header_sync::zero_copy_sink::ZeroCopySink;
use block_header_sync::zero_copy_source::ZeroCopySource;
use block_header_sync::{PublicKey, Signature};

fn var_uint_bytes(value: u64) -> Vec<u8> {
    let mut sink = ZeroCopySink::new();
    sink.write_var_uint(value);
    sink.get_sink()
}

fn read_var_uint(bytes: &[u8]) -> Option<u64> {
    ZeroCopySource::new(bytes).next_var_uint()
}

#[test]
fn integers_are_little_endian() {
    let mut sink = ZeroCopySink::new();
    sink.write_u8(0xAB);
    sink.write_u16(0x0102);
    sink.write_u32(0x01020304);
    sink.write_u64(0x0102030405060708);
    assert_eq!(sink.len(), 15);
    let bytes = sink.get_sink();
    assert_eq!(
        bytes,
        vec![0xAB, 0x02, 0x01, 0x04, 0x03, 0x02, 0x01, 0x08, 0x07, 0x06, 0x05, 0x04, 0x03, 0x02, 0x01]
    );
    let mut source = ZeroCopySource::new(&bytes);
    assert_eq!(source.next_u8(), Some(0xAB));
    assert_eq!(source.next_u16(), Some(0x0102));
    assert_eq!(source.next_u32(), Some(0x01020304));
    assert_eq!(source.pos(), 7);
    assert_eq!(source.next_u64(), Some(0x0102030405060708));
    assert_eq!(source.next_u8(), None);
    assert_eq!(source.len(), 0);
}

#[test]
fn extreme_integers_round_trip() {
    let mut sink = ZeroCopySink::new();
    sink.write_u16(u16::MAX);
    sink.write_u32(u32::MAX);
    sink.write_u64(u64::MAX);
    sink.write_u32(0);
    let bytes = sink.get_sink();
    let mut source = ZeroCopySource::new(&bytes);
    assert_eq!(source.next_u16(), Some(u16::MAX));
    assert_eq!(source.next_u32(), Some(u32::MAX));
    assert_eq!(source.next_u64(), Some(u64::MAX));
    assert_eq!(source.next_u32(), Some(0));
}

#[test]
fn var_uint_has_four_widths() {
    assert_eq!(var_uint_bytes(0), vec![0x00]);
    assert_eq!(var_uint_bytes(0xFC), vec![0xFC]);
    assert_eq!(var_uint_bytes(0xFD), vec![0xFD, 0xFD, 0x00]);
    assert_eq!(var_uint_bytes(0xFFFF), vec![0xFD, 0xFF, 0xFF]);
    assert_eq!(var_uint_bytes(0x1_0000), vec![0xFE, 0x00, 0x00, 0x01, 0x00]);
    assert_eq!(var_uint_bytes(0xFFFF_FFFF), vec![0xFE, 0xFF, 0xFF, 0xFF, 0xFF]);
    assert_eq!(
        var_uint_bytes(0x1_0000_0000),
        vec![0xFF, 0x00, 0x00, 0x00, 0x00, 0x01, 0x00, 0x00, 0x00]
    );
    assert_eq!(var_uint_bytes(u64::MAX), vec![0xFF; 9]);
}

#[test]
fn var_uint_round_trips() {
    for value in [0u64, 1, 0xFC, 0xFD, 0xFE, 0xFF, 0x100, 0xFFFF, 0x1_0000, 0xFFFF_FFFF, 0x1_0000_0000, u64::MAX] {
        assert_eq!(read_var_uint(&var_uint_bytes(value)), Some(value));
    }
}

#[test]
fn var_uint_written_wide_is_read() {
    assert_eq!(read_var_uint(&[0xFD, 0x05, 0x00]), Some(5));
    assert_eq!(read_var_uint(&[0xFE, 0x05, 0x00, 0x00, 0x00]), Some(5));
    assert_eq!(read_var_uint(&[0xFF, 0x05, 0, 0, 0, 0, 0, 0, 0]), Some(5));
}

#[test]
fn short_var_uint_takes_nothing() {
    let bytes = [0xFD, 0x01];
    let mut source = ZeroCopySource::new(&bytes);
    assert_eq!(source.next_var_uint(), None);
    assert_eq!(source.pos(), 0);
    assert_eq!(source.next_u8(), Some(0xFD));
    assert_eq!(read_var_uint(&[]), None);
    assert_eq!(read_var_uint(&[0xFE, 1, 2, 3]), None);
    assert_eq!(read_var_uint(&[0xFF, 1, 2, 3, 4, 5, 6, 7]), None);
}

#[test]
fn var_bytes_carry_their_length() {
    let mut sink = ZeroCopySink::new();
    sink.write_var_bytes(&[7, 8, 9]);
    sink.write_var_bytes(&[]);
    let bytes = sink.get_sink();
    assert_eq!(bytes, vec![3, 7, 8, 9, 0]);
    let mut source = ZeroCopySource::new(&bytes);
    assert_eq!(source.next_var_bytes(), Some(vec![7, 8, 9]));
    assert_eq!(source.next_var_bytes(), Some(vec![]));
    assert_eq!(source.next_var_bytes(), None);
}

#[test]
fn long_var_bytes_use_a_wide_length() {
    let payload = vec![0x5A; 300];
    let mut sink = ZeroCopySink::new();
    sink.write_var_bytes(&payload);
    let bytes = sink.get_sink();
    assert_eq!(bytes.len(), 303);
    assert_eq!(&bytes[..3], &[0xFD, 0x2C, 0x01]);
    assert_eq!(ZeroCopySource::new(&bytes).next_var_bytes(), Some(payload));
}

#[test]
fn var_bytes_shorter_than_announced_take_nothing() {
    let bytes = [4, 1, 2, 3];
    let mut source = ZeroCopySource::new(&bytes);
    assert_eq!(source.next_var_bytes(), None);
    assert_eq!(source.pos(), 0);
    let huge = [0xFF, 0xFF, 0xFF, 0xFF, 0xFF, 0xFF, 0xFF, 0xFF, 0xFF, 1, 2];
    let mut source = ZeroCopySource::new(&huge);
    assert_eq!(source.next_var_bytes(), None);
    assert_eq!(source.pos(), 0);
}

#[test]
fn fixed_fields_have_no_length_prefix() {
    let hash = H256([0x11; 32]);
    let address = EthAddress([0x22; 20]);
    let key = PublicKey([0x33; 67]);
    let signature = Signature([0x44; 65]);
    let mut sink = ZeroCopySink::new();
    sink.write_hash(&hash);
    sink.write_address(&address);
    sink.write_public_key(&key);
    sink.write_signature(&signature);
    let bytes = sink.get_sink();
    assert_eq!(bytes.len(), 32 + 20 + 67 + 65);
    assert_eq!(&bytes[..32], &[0x11; 32]);
    assert_eq!(&bytes[32..52], &[0x22; 20]);
    let mut source = ZeroCopySource::new(&bytes);
    assert_eq!(source.next_hash(), Some(hash));
    assert_eq!(source.next_address(), Some(address));
    assert_eq!(source.next_public_key(), Some(key));
    assert_eq!(source.next_signature(), Some(signature));
    assert_eq!(source.len(), 0);
}

#[test]
fn short_fixed_fields_take_nothing() {
    let bytes = [1u8; 19];
    let mut source = ZeroCopySource::new(&bytes);
    assert_eq!(source.next_hash(), None);
    assert_eq!(source.next_address(), None);
    assert_eq!(source.next_public_key(), None);
    assert_eq!(source.next_signature(), None);
    assert_eq!(source.next_u64(), Some(0x0101010101010101));
    assert_eq!(source.next_bytes(12), None);
    assert_eq!(source.pos(), 8);
    assert_eq!(source.next_bytes(11), Some(&bytes[8..]));
    assert_eq!(source.next_bytes(0), Some(&bytes[..0]));
}

#[test]
fn rewind_goes_back() {
    let bytes = [1u8, 2, 3, 4];
    let mut source = ZeroCopySource::new(&bytes);
    assert_eq!(source.next_u16(), Some(0x0201));
    source.rewind(1);
    assert_eq!(source.pos(), 1);
    assert_eq!(source.next_u16(), Some(0x0302));
}

#[test]
fn write_bytes_appends_as_is() {
    let mut sink = ZeroCopySink::new();
    sink.write_bytes(&[1, 2]);
    sink.write_bytes(&[]);
    sink.write_bytes(&[3]);
    assert_eq!(sink.get_sink(), vec![1, 2, 3]);
}
