use minibit::bitmap::{BitmapSize, PresenceBitmap};
use minibit::crc32c::{crc32c, verify_crc32c};
use minibit::decoder::{BodyCursor, FrameDecoder};
use minibit::encoder::FrameEncoder;
use minibit::error::Error;
use minibit::frame::{FrameFlags, FrameHeader};
use minibit::messages::{quote, trade};
use minibit::varint::{decode_u32, decode_u64, encode_u32, encode_u64};
use minibit::{FRAME_MAGIC, MAX_FRAME_SIZE};

#[test]
fn varint_exact_bytes() {
    let mut buf = [0u8; 4];
    assert_eq!(encode_u32(300, &mut buf), Ok(2));
    assert_eq!(buf, [0xAC, 0x02, 0, 0]);
    assert_eq!(decode_u32(&[0xAC, 0x02, 0x99]), Ok((300, 2)));
    let mut buf = [0u8; 1];
    assert_eq!(encode_u64(127, &mut buf), Ok(1));
    assert_eq!(buf, [0x7F]);
}

#[test]
fn varint_partial_write_on_short_buffer() {
    let mut buf = [0u8; 1];
    assert_eq!(encode_u32(300, &mut buf), Err(Error::ShortBuffer));
    assert_eq!(buf, [0xAC]);
    let mut empty: [u8; 0] = [];
    assert_eq!(encode_u64(0, &mut empty), Err(Error::ShortBuffer));
}

#[test]
fn varint_overflow_and_truncation() {
    assert_eq!(decode_u32(&[0x80, 0x80, 0x80, 0x80, 0x80, 0x01]), Err(Error::Overflow));
    assert_eq!(decode_u32(&[0x80, 0x80, 0x80, 0x80, 0x80]), Err(Error::UnexpectedEof));
    assert_eq!(decode_u32(&[0xFF, 0xFF, 0xFF, 0xFF, 0x7F]), Ok((u32::MAX, 5)));
    assert_eq!(decode_u64(&[0x80; 11]), Err(Error::Overflow));
    assert_eq!(decode_u64(&[]), Err(Error::UnexpectedEof));
    let mut buf = [0u8; 10];
    assert_eq!(encode_u64(u64::MAX, &mut buf), Ok(10));
    assert_eq!(buf[9], 0x01);
    assert_eq!(decode_u64(&buf), Ok((u64::MAX, 10)));
}

#[test]
fn crc32c_single_bytes() {
    assert_eq!(crc32c(&[0]), 0x527D_5351);
    assert!(verify_crc32c(&[], 0));
    assert!(!verify_crc32c(&[], 1));
}

#[test]
fn header_byte_layout() {
    let header = FrameHeader::new(0x0102, 0x0304_0506, 7);
    let mut buf = [0xEEu8; 18];
    assert_eq!(header.encode(&mut buf), Ok(()));
    assert_eq!(
        buf,
        [0xED, 0xFE, 1, 0, 0x02, 0x01, 0x06, 0x05, 0x04, 0x03, 7, 0, 0, 0, 0, 0, 0xEE, 0xEE]
    );
    let mut short = [0u8; 15];
    assert_eq!(header.encode(&mut short), Err(Error::ShortBuffer));
    assert_eq!(short, [0u8; 15]);
    assert_eq!(FrameHeader::decode(&buf[..15]), Err(Error::UnexpectedEof));
    assert_eq!(header.total_size(), 16 + 7 + 4);
}

#[test]
fn header_validation_bounds() {
    let mut header = FrameHeader::new(1, 1, (MAX_FRAME_SIZE - 20) as u32);
    assert_eq!(header.validate(), Ok(()));
    header.len += 1;
    assert_eq!(header.validate(), Err(Error::Overflow));
    assert_eq!(FrameHeader::default(), FrameHeader::new(0, 0, 0));
    assert_eq!(FrameHeader::default().magic, FRAME_MAGIC);
}

#[test]
fn flag_set_and_clear_laws() {
    let mut header = FrameHeader::new(1, 1, 0);
    header.set_flag(FrameFlags::ENCRYPTED);
    header.set_flag(FrameFlags::COMPRESSED);
    assert_eq!(header.flags, 0x06);
    header.clear_flag(FrameFlags::ENCRYPTED);
    assert_eq!(header.flags, 0x02);
    assert!(!header.has_flag(FrameFlags::ENCRYPTED));
    assert!(header.has_flag(FrameFlags::COMPRESSED));
    header.set_flag(FrameFlags::RESERVED);
    assert_eq!(header.validate(), Err(Error::FlagConflict));
}

#[test]
fn encoder_writes_little_endian_fields() {
    let mut buf = [0u8; 64];
    let mut encoder = FrameEncoder::new(&mut buf);
    encoder.begin(&FrameHeader::new(9, 9, 0)).unwrap();
    assert_eq!(encoder.position(), 16);
    assert_eq!(encoder.remaining(), 48);
    encoder.put_i32(-2).unwrap();
    encoder.put_bytes(&[1, 2, 3]).unwrap();
    encoder.put_varint_u32(300).unwrap();
    encoder.put_varint_u64(1).unwrap();
    assert_eq!(encoder.position(), 16 + 4 + 3 + 2 + 1);
    let size = encoder.finish_crc32c().unwrap();
    assert_eq!(size, 16 + 10 + 4);
    assert_eq!(&buf[16..26], &[0xFE, 0xFF, 0xFF, 0xFF, 1, 2, 3, 0xAC, 0x02, 0x01]);
    assert_eq!(&buf[10..14], &[10, 0, 0, 0]);
    let crc = crc32c(&buf[..26]).to_le_bytes();
    assert_eq!(&buf[26..30], &crc);

    let decoder = FrameDecoder::new(&buf[..size]);
    let mut body = decoder.body().unwrap();
    assert_eq!(body.get_i32(), Ok(-2));
    assert_eq!(body.get_bytes(3).unwrap(), &[1, 2, 3]);
    assert_eq!(body.get_varint_u32(), Ok(300));
    assert_eq!(body.get_varint_u64(), Ok(1));
    assert!(body.is_at_end());
    assert_eq!(decoder.frame_buffer().unwrap().len(), size);
}

#[test]
fn encoder_short_buffer_cases() {
    let mut buf = [0u8; 21];
    let mut encoder = FrameEncoder::new(&mut buf);
    encoder.begin(&FrameHeader::new(1, 1, 0)).unwrap();
    assert_eq!(encoder.put_u64(7), Err(Error::ShortBuffer));
    assert_eq!(encoder.position(), 16);
    assert_eq!(encoder.put_u32(7), Ok(()));
    assert_eq!(encoder.put_u16(7), Err(Error::ShortBuffer));
    assert_eq!(encoder.put_u8(7), Ok(()));
    assert_eq!(encoder.put_u8(7), Err(Error::ShortBuffer));
    // No room for the checksum: the length field is still updated.
    assert_eq!(encoder.finish_crc32c(), Err(Error::ShortBuffer));
    assert_eq!(encoder.position(), 21);
    assert_eq!(&buf[10..14], &[5, 0, 0, 0]);
}

#[test]
fn put_varbytes_keeps_prefix_when_bytes_do_not_fit() {
    let mut buf = [0u8; 20];
    let mut encoder = FrameEncoder::new(&mut buf);
    encoder.begin(&FrameHeader::new(1, 1, 0)).unwrap();
    assert_eq!(encoder.put_varbytes(b"ABCDE"), Err(Error::ShortBuffer));
    assert_eq!(encoder.position(), 17);
    assert_eq!(buf[16], 5);
}

#[test]
fn get_varbytes_moves_past_prefix_when_bytes_missing() {
    let data = [3u8, b'a'];
    let mut cursor = BodyCursor { buf: &data, pos: 0 };
    assert_eq!(cursor.get_varbytes(), Err(Error::UnexpectedEof));
    assert_eq!(cursor.pos, 1);
    let mut cursor = BodyCursor { buf: &data, pos: 2 };
    assert_eq!(cursor.get_varbytes(), Err(Error::UnexpectedEof));
    assert_eq!(cursor.pos, 2);
}

#[test]
fn verify_reports_header_error_when_crc_matches() {
    let mut buf = [0u8; 64];
    let size = trade::encode(&mut buf, 1, 2, 3, 4, None, None).unwrap();
    // Break the version and recompute the checksum: the checksum matches,
    // so the header error is reported.
    buf[2] = 7;
    let crc = crc32c(&buf[..size - 4]).to_le_bytes();
    buf[size - 4..size].copy_from_slice(&crc);
    let decoder = FrameDecoder::new(&buf[..size]);
    assert_eq!(decoder.verify_crc32c(), Err(Error::UnsupportedVersion));
    // Truncated frame
    let decoder = FrameDecoder::new(&buf[..size - 1]);
    assert_eq!(decoder.verify_crc32c(), Err(Error::UnexpectedEof));
    assert_eq!(decoder.frame_buffer(), Err(Error::UnsupportedVersion));
}

#[test]
fn trade_frame_exact_size() {
    let mut buf = [0u8; 256];
    let size = trade::encode(&mut buf, 1, 2, 3, 4, Some(b"AB"), Some(b"C")).unwrap();
    // header + fixed fields + bitmap + (1 + 2) + (1 + 1) + crc
    assert_eq!(size, 16 + 20 + 2 + 3 + 2 + 4);
    let mut exact = vec![0u8; size];
    assert_eq!(trade::encode(&mut exact, 1, 2, 3, 4, Some(b"AB"), Some(b"C")), Ok(size));
    assert_eq!(&exact[..], &buf[..size]);
    let mut short = vec![0u8; size - 1];
    assert_eq!(
        trade::encode(&mut short, 1, 2, 3, 4, Some(b"AB"), Some(b"C")),
        Err(Error::ShortBuffer)
    );
}

#[test]
fn quote_roundtrip_and_short_buffer() {
    let mut buf = [0u8; 64];
    let size = quote::encode(&mut buf, 3, 4, -5, 6, 7, Some(b"XY")).unwrap();
    assert_eq!(size, 16 + 25 + 2 + 3 + 4);
    let (header, ts, bid, ask, level, symbol) = quote::decode(&buf[..size]).unwrap();
    assert_eq!((header.seq, header.len, ts, bid, ask, level), (3, 30, 4, -5, 6, 7));
    assert_eq!(symbol, Some(&b"XY"[..]));
    let mut short = [0u8; 40];
    assert_eq!(quote::encode(&mut short, 3, 4, -5, 6, 7, None), Err(Error::ShortBuffer));
}

#[test]
fn trade_decode_errors() {
    let mut buf = [0u8; 64];
    let size = trade::encode(&mut buf, 1, 2, 3, 4, None, None).unwrap();
    buf[20] ^= 1;
    assert_eq!(trade::decode(&buf[..size]), Err(Error::CrcMismatch));
    assert_eq!(trade::decode(&buf[..10]), Err(Error::UnexpectedEof));
}

#[test]
fn bitmap_edge_cases() {
    let wide = PresenceBitmap::from_bits(0x01FF, BitmapSize::U8);
    let mut buf = [0u8; 2];
    assert_eq!(wide.encode(&mut buf), Ok(1));
    assert_eq!(buf, [0xFF, 0]);
    assert!(!wide.is_set(8));
    assert_eq!(wide.count_set(), 9);
    assert_eq!(wide.iter_set(), vec![0, 1, 2, 3, 4, 5, 6, 7]);
    let full = PresenceBitmap::from_bits(0xFFFF, BitmapSize::U16);
    assert_eq!(full.count_set(), 16);
    assert_eq!(full.size(), BitmapSize::U16);
    assert_eq!(BitmapSize::U16.bytes(), 2);
    assert_eq!(BitmapSize::U8.max_fields(), 8);
    let mut empty: [u8; 1] = [0];
    assert_eq!(full.encode(&mut empty), Err(Error::ShortBuffer));
    assert_eq!(PresenceBitmap::decode(&[], BitmapSize::U8), Err(Error::UnexpectedEof));
    assert_eq!(PresenceBitmap::decode(&[1], BitmapSize::U16), Err(Error::UnexpectedEof));
    let mut b = PresenceBitmap::new(BitmapSize::U16);
    assert_eq!(b.clear(16), Err(Error::Overflow));
}

#[test]
fn error_descriptions() {
    assert_eq!(Error::ShortBuffer.description(), "buffer too small for operation");
    assert_eq!(Error::CrcMismatch.description(), "CRC32C checksum verification failed");
    assert_eq!(Error::InvalidMagic.description(), "invalid magic number in frame header");
    assert_eq!(Error::UnsupportedVersion.description(), "unsupported protocol version");
    assert_eq!(Error::UnexpectedEof.description(), "unexpected end of frame data");
    assert_eq!(Error::Overflow.description(), "integer overflow in calculations");
    assert_eq!(Error::FlagConflict.description(), "conflicting flags in frame header");
    assert_eq!(Error::DecodeInvariant.description(), "decode invariant violated");
    assert_eq!(Error::UnsupportedMsgType.description(), "unsupported message type");
    assert_eq!(Error::InvalidVarint.description(), "invalid varint encoding");
}

#[test]
fn second_begin_without_room_is_refused() {
    let mut buf = [0u8; 20];
    let mut e = FrameEncoder::new(&mut buf);
    assert_eq!(e.begin(&FrameHeader::new(1, 1, 0)), Ok(()));
    assert_eq!(e.position(), 16);
    assert_eq!(e.remaining(), 4);
    assert_eq!(e.begin(&FrameHeader::new(2, 2, 0)), Err(Error::ShortBuffer));
    assert_eq!(e.position(), 16);
    assert_eq!(e.position() + e.remaining(), 20);
}

#[test]
fn cursor_huge_lengths_are_refused() {
    let data = [1u8, 2, 3];
    let mut cursor = BodyCursor { buf: &data, pos: 1 };
    assert_eq!(cursor.skip(usize::MAX), Err(Error::UnexpectedEof));
    assert_eq!(cursor.get_bytes(usize::MAX), Err(Error::UnexpectedEof));
    assert_eq!(cursor.peek_bytes(usize::MAX), Err(Error::UnexpectedEof));
    assert_eq!(cursor.pos, 1);
    let mut past = BodyCursor { buf: &data, pos: usize::MAX };
    assert_eq!(past.get_u64(), Err(Error::UnexpectedEof));
    assert_eq!(past.get_u8(), Err(Error::UnexpectedEof));
}

#[test]
fn header_byte_corruption_is_a_crc_mismatch() {
    let mut buf = [0u8; 64];
    let size = trade::encode(&mut buf, 1, 2, 3, 4, None, None).unwrap();
    // Sequence number byte: the header stays valid, the checksum does not.
    buf[6] ^= 0x10;
    assert_eq!(FrameDecoder::new(&buf[..size]).verify_crc32c(), Err(Error::CrcMismatch));
    buf[6] ^= 0x10;
    // Reserved byte
    buf[15] = 1;
    assert_eq!(FrameDecoder::new(&buf[..size]).verify_crc32c(), Err(Error::CrcMismatch));
}
