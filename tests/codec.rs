use guess_game::bin_reader::{BinReader, DecodeError};
use guess_game::bin_writer::BinWriter;
use guess_game::message::{ClientMessage, ServerMessage};
use guess_game::wire::MAX_PACKET_LENGTH;

#[test]
fn round_trip_all_kinds() {
    let mut w = BinWriter::with_capacity(MAX_PACKET_LENGTH);
    w.write_u8(200);
    w.write_u16(0xBEEF);
    w.write_u32(0xDEADBEEF);
    w.write_str("héllo");
    let data = w.clone_data();
    assert_eq!(data.len(), w.len());
    let mut r = BinReader::from_bytes(&data);
    assert_eq!(r.read_u8(), Ok(200));
    assert_eq!(r.read_u16(), Ok(0xBEEF));
    assert_eq!(r.read_u32(), Ok(0xDEADBEEF));
    assert_eq!(r.read_str(), Ok("héllo".to_string()));
    assert_eq!(r.remaining(), 0);
}

#[test]
fn little_endian_layout() {
    let mut w = BinWriter::with_capacity(16);
    w.write_u16(0x0102);
    w.write_u32(0x03040506);
    w.write_str("ab");
    assert_eq!(w.clone_data(), vec![0x02, 0x01, 0x06, 0x05, 0x04, 0x03, 2, 0, b'a', b'b']);
}

#[test]
fn clear_resets_cursor() {
    let mut w = BinWriter::with_capacity(4);
    w.write_u32(7);
    assert_eq!(w.len(), 4);
    w.clear();
    assert_eq!(w.len(), 0);
    assert_eq!(w.clone_data(), Vec::<u8>::new());
    w.write_u8(9);
    assert_eq!(w.clone_data(), vec![9]);
}

#[test]
fn empty_string_round_trip() {
    let mut w = BinWriter::with_capacity(2);
    w.write_str("");
    let data = w.clone_data();
    assert_eq!(data, vec![0, 0]);
    let mut r = BinReader::from_bytes(&data);
    assert_eq!(r.read_str(), Ok(String::new()));
}

#[test]
fn reading_past_end_fails() {
    let data = vec![1u8, 2, 3];
    let mut r = BinReader::from_bytes(&data);
    assert_eq!(r.read_u32(), Err(DecodeError::OutOfBounds));
    assert_eq!(r.read_u16(), Ok(0x0201));
    assert_eq!(r.read_u16(), Err(DecodeError::OutOfBounds));
    assert_eq!(r.read_u8(), Ok(3));
    assert_eq!(r.read_u8(), Err(DecodeError::OutOfBounds));
}

#[test]
fn string_longer_than_buffer_fails() {
    let data = vec![5u8, 0, b'a', b'b'];
    let mut r = BinReader::from_bytes(&data);
    assert_eq!(r.read_str(), Err(DecodeError::OutOfBounds));
    assert_eq!(r.remaining(), 4);
}

#[test]
fn invalid_utf8_fails() {
    let data = vec![2u8, 0, 0xFF, 0xFE];
    let mut r = BinReader::from_bytes(&data);
    assert_eq!(r.read_str(), Err(DecodeError::InvalidUtf8));
}

#[test]
fn opcodes_map_both_ways() {
    assert_eq!(ClientMessage::try_from_u8(2), Some(ClientMessage::RequestMatch));
    assert_eq!(ClientMessage::try_from_u8(5), None);
    assert_eq!(ClientMessage::SendAttempt.to_u8(), 4);
    assert_eq!(ServerMessage::try_from_u8(8), Some(ServerMessage::AttemptResult));
    assert_eq!(ServerMessage::try_from_u8(9), None);
    assert_eq!(ServerMessage::Failure.to_u8(), 1);
    assert_eq!(ServerMessage::Success.to_u8(), 0);
}
