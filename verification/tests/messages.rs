use minibit::encoder::FrameEncoder;
use minibit::error::Error;
use minibit::frame::{FrameFlags, FrameHeader};
use minibit::messages::{msg_types, quote, trade};

#[test]
fn test_trade_encode_decode_minimal() {
    let mut buf = [0u8; 256];

    let frame_size = trade::encode(
        &mut buf,
        12345,         // seq
        1_000_000_000, // ts_ns
        50_000_000,    // price
        100,           // qty
        None,          // symbol
        None,          // note
    )
    .unwrap();

    let (header, ts_ns, price, qty, symbol, note) = trade::decode(&buf[..frame_size]).unwrap();

    assert_eq!(header.msg_type, msg_types::TRADE_V1);
    assert_eq!(header.seq, 12345);
    assert!(!header.has_flag(FrameFlags::PRESENCE_BITMAP));
    assert_eq!(ts_ns, 1_000_000_000);
    assert_eq!(price, 50_000_000);
    assert_eq!(qty, 100);
    assert_eq!(symbol, None);
    assert_eq!(note, None);
}

#[test]
fn test_trade_encode_decode_full() {
    let mut buf = [0u8; 256];

    let frame_size = trade::encode(
        &mut buf,
        67890,                // seq
        2_000_000_000,        // ts_ns
        -25_000_000,          // price (negative for short)
        200,                  // qty
        Some(b"TSLA"),        // symbol
        Some(b"Test trade"),  // note
    )
    .unwrap();

    let (header, ts_ns, price, qty, symbol, note) = trade::decode(&buf[..frame_size]).unwrap();

    assert_eq!(header.msg_type, msg_types::TRADE_V1);
    assert_eq!(header.seq, 67890);
    assert!(header.has_flag(FrameFlags::PRESENCE_BITMAP));
    assert_eq!(ts_ns, 2_000_000_000);
    assert_eq!(price, -25_000_000);
    assert_eq!(qty, 200);
    assert_eq!(symbol, Some(&b"TSLA"[..]));
    assert_eq!(note, Some(&b"Test trade"[..]));
}

#[test]
fn test_trade_encode_decode_partial() {
    let mut buf = [0u8; 256];

    let frame_size = trade::encode(
        &mut buf,
        11111,         // seq
        3_000_000_000, // ts_ns
        75_500_000,    // price
        50,            // qty
        Some(b"AAPL"), // symbol only
        None,          // no note
    )
    .unwrap();

    let (header, _ts_ns, _price, _qty, symbol, note) = trade::decode(&buf[..frame_size]).unwrap();

    assert_eq!(header.seq, 11111);
    assert!(header.has_flag(FrameFlags::PRESENCE_BITMAP));
    assert_eq!(symbol, Some(&b"AAPL"[..]));
    assert_eq!(note, None);
}

#[test]
fn test_quote_encode_decode() {
    let mut buf = [0u8; 256];

    let frame_size = quote::encode(
        &mut buf,
        55555,            // seq
        4_000_000_000,    // ts_ns
        100_000_000,      // bid
        100_050_000,      // ask
        1,                // level
        Some(b"BTC/USD"), // symbol
    )
    .unwrap();

    let (header, ts_ns, bid, ask, level, symbol) = quote::decode(&buf[..frame_size]).unwrap();

    assert_eq!(header.msg_type, msg_types::QUOTE_V1);
    assert_eq!(header.seq, 55555);
    assert!(header.has_flag(FrameFlags::PRESENCE_BITMAP));
    assert_eq!(ts_ns, 4_000_000_000);
    assert_eq!(bid, 100_000_000);
    assert_eq!(ask, 100_050_000);
    assert_eq!(level, 1);
    assert_eq!(symbol, Some(&b"BTC/USD"[..]));
}

#[test]
fn test_quote_without_symbol() {
    let mut buf = [0u8; 256];

    let frame_size = quote::encode(
        &mut buf,
        77777,         // seq
        5_000_000_000, // ts_ns
        95_000_000,    // bid
        95_100_000,    // ask
        2,             // level
        None,          // no symbol
    )
    .unwrap();

    let (header, _ts_ns, _bid, _ask, _level, symbol) = quote::decode(&buf[..frame_size]).unwrap();

    assert_eq!(header.msg_type, msg_types::QUOTE_V1);
    assert!(!header.has_flag(FrameFlags::PRESENCE_BITMAP));
    assert_eq!(symbol, None);
}

#[test]
fn test_unsupported_message_type() {
    let mut buf = [0u8; 128];
    let mut encoder = FrameEncoder::new(&mut buf);

    let header = FrameHeader::new(999, 1, 0); // Unknown message type
    encoder.begin(&header).unwrap();
    encoder.put_u32(42).unwrap();
    let frame_size = encoder.finish_crc32c().unwrap();

    // Should fail when trying to decode as trade
    assert_eq!(trade::decode(&buf[..frame_size]).unwrap_err(), Error::UnsupportedMsgType);

    // Should fail when trying to decode as quote
    assert_eq!(quote::decode(&buf[..frame_size]).unwrap_err(), Error::UnsupportedMsgType);
}
