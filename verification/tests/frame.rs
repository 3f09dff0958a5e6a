use minibit::error::Error;
use minibit::frame::{FrameFlags, FrameHeader};
use minibit::{FRAME_MAGIC, MAX_FRAME_SIZE};

#[test]
fn test_header_encode_decode() {
    let header = FrameHeader {
        magic: FRAME_MAGIC,
        ver: 1,
        flags: FrameFlags::PRESENCE_BITMAP | FrameFlags::COMPRESSED,
        msg_type: 42,
        seq: 0x12345678,
        len: 100,
    };

    let mut buf = [0u8; FrameHeader::SIZE];
    header.encode(&mut buf).unwrap();

    let decoded = FrameHeader::decode(&buf).unwrap();
    assert_eq!(header, decoded);
}

#[test]
fn test_header_validation() {
    let mut header = FrameHeader::default();
    assert!(header.validate().is_ok());

    // Invalid magic
    header.magic = 0x1234;
    assert_eq!(header.validate(), Err(Error::InvalidMagic));
    header.magic = FRAME_MAGIC;

    // Invalid version
    header.ver = 99;
    assert_eq!(header.validate(), Err(Error::UnsupportedVersion));
    header.ver = 1;

    // Reserved flags
    header.flags = 0x80;
    assert_eq!(header.validate(), Err(Error::FlagConflict));
    header.flags = 0;

    // Frame too large
    header.len = MAX_FRAME_SIZE as u32;
    assert_eq!(header.validate(), Err(Error::Overflow));
}

#[test]
fn test_flag_operations() {
    let mut header = FrameHeader::default();

    assert!(!header.has_flag(FrameFlags::PRESENCE_BITMAP));

    header.set_flag(FrameFlags::PRESENCE_BITMAP);
    assert!(header.has_flag(FrameFlags::PRESENCE_BITMAP));

    header.clear_flag(FrameFlags::PRESENCE_BITMAP);
    assert!(!header.has_flag(FrameFlags::PRESENCE_BITMAP));
}
