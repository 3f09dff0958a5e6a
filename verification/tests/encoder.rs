use minibit::decoder::FrameDecoder;
use minibit::encoder::FrameEncoder;
use minibit::error::Error;
use minibit::frame::FrameHeader;
use minibit::FRAME_MAGIC;

#[test]
fn test_encoder_basic() {
    let mut buf = [0u8; 256];
    let mut encoder = FrameEncoder::new(&mut buf);

    let header = FrameHeader::new(1, 12345, 0); // len will be updated
    encoder.begin(&header).unwrap();

    encoder.put_u64(1_000_000_000).unwrap(); // timestamp
    encoder.put_i64(50_000_000).unwrap(); // price
    encoder.put_u32(100).unwrap(); // quantity

    let frame_size = encoder.finish_crc32c().unwrap();

    // Verify the frame can be decoded
    let decoder = FrameDecoder::new(&buf[..frame_size]);
    let decoded_header = decoder.header().unwrap();

    assert_eq!(decoded_header.magic, FRAME_MAGIC);
    assert_eq!(decoded_header.msg_type, 1);
    assert_eq!(decoded_header.seq, 12345);
    assert_eq!(decoded_header.len, 20); // 8+8+4 bytes

    decoder.verify_crc32c().unwrap();
}

#[test]
fn test_encoder_varbytes() {
    let mut buf = [0u8; 256];
    let mut encoder = FrameEncoder::new(&mut buf);

    let header = FrameHeader::new(1, 1, 0);
    encoder.begin(&header).unwrap();

    encoder.put_varbytes(b"AAPL").unwrap();
    encoder.put_varbytes(b"").unwrap(); // empty string
    encoder.put_varbytes(b"Hello, World!").unwrap();

    let frame_size = encoder.finish_crc32c().unwrap();

    let decoder = FrameDecoder::new(&buf[..frame_size]);
    decoder.verify_crc32c().unwrap();
}

#[test]
fn test_encoder_bitmap() {
    let mut buf = [0u8; 128];
    let mut encoder = FrameEncoder::new(&mut buf);

    let header = FrameHeader::new(2, 456, 0);
    encoder.begin(&header).unwrap();

    encoder.put_bitmap(0b1010_0001).unwrap(); // fields 0, 5, 7 present
    encoder.put_u32(42).unwrap();

    let frame_size = encoder.finish_crc32c().unwrap();

    let decoder = FrameDecoder::new(&buf[..frame_size]);
    decoder.verify_crc32c().unwrap();

    let decoded_header = decoder.header().unwrap();
    assert_eq!(decoded_header.len, 6); // 2 bytes bitmap + 4 bytes u32
}

#[test]
fn test_encoder_buffer_too_small() {
    let mut buf = [0u8; 10]; // Too small
    let mut encoder = FrameEncoder::new(&mut buf);

    let header = FrameHeader::new(1, 1, 100);
    assert_eq!(encoder.begin(&header), Err(Error::ShortBuffer));
}

#[test]
fn test_encoder_reset() {
    let mut buf = [0u8; 256];
    let mut encoder = FrameEncoder::new(&mut buf);

    // First frame
    let header1 = FrameHeader::new(1, 1, 0);
    encoder.begin(&header1).unwrap();
    encoder.put_u32(123).unwrap();
    let _size1 = encoder.finish_crc32c().unwrap();

    let first_frame = encoder.as_slice().to_vec();

    // Reset and encode second frame
    encoder.reset();
    let header2 = FrameHeader::new(2, 2, 0);
    encoder.begin(&header2).unwrap();
    encoder.put_u64(456).unwrap();
    let _size2 = encoder.finish_crc32c().unwrap();

    // Verify first frame is still valid
    let decoder1 = FrameDecoder::new(&first_frame);
    assert_eq!(decoder1.header().unwrap().msg_type, 1);
}
