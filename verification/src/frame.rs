//! Frame header structures and utilities

use crate::crc32c::crc32c_spec;
use crate::error::{Error, Result};
use crate::wire::{
    le16, le32, lemma_le16_roundtrip, lemma_le32_roundtrip, lemma_splice_append, lemma_splice_nested,
    read_u16_at, read_u32_at, splice, u16_at,
    u32_at, write_u16_at, write_u32_at,
};
use crate::{FRAME_MAGIC, MAX_FRAME_SIZE, MIN_FRAME_SIZE};
use vstd::prelude::*;

verus! {

/// Frame header structure (16 bytes, little-endian)
#[derive(Debug, Clone, Copy, PartialEq, Eq, Structural)]
pub struct FrameHeader {
    /// Magic number (0xFEED)
    pub magic: u16,
    /// Protocol version
    pub ver: u8,
    /// Frame flags
    pub flags: u8,
    /// Message type identifier
    pub msg_type: u16,
    /// Sequence number
    pub seq: u32,
    /// Body length in bytes
    pub len: u32,
}

/// Frame flags bit definitions
#[derive(Debug, Clone, Copy, PartialEq, Eq, Structural)]
pub struct FrameFlags;

impl FrameFlags {
    /// Presence bitmap is included (bit 0)
    pub const PRESENCE_BITMAP: u8 = 0x01;

    /// Body is LZ4 compressed (bit 1)
    pub const COMPRESSED: u8 = 0x02;

    /// Body is AEAD encrypted (bit 2)
    pub const ENCRYPTED: u8 = 0x04;

    /// Reserved flags mask
    pub const RESERVED: u8 = 0xF8;
}

/// The sixteen bytes that encode `h`: the fields little-endian in
/// declaration order, then two reserved zero bytes.
pub open spec fn header_bytes(h: FrameHeader) -> Seq<u8> {
    le16(h.magic) + seq![h.ver, h.flags] + le16(h.msg_type) + le32(h.seq) + le32(h.len) + seq![
        0u8,
        0u8,
    ]
}

/// The header fields stored in the first fourteen bytes of `s`.
pub open spec fn header_at(s: Seq<u8>) -> FrameHeader {
    FrameHeader {
        magic: u16_at(s, 0),
        ver: s[2],
        flags: s[3],
        msg_type: u16_at(s, 4),
        seq: u32_at(s, 6),
        len: u32_at(s, 10),
    }
}

/// The first problem `validate` finds with `h`, in the order: magic,
/// version, reserved flags, frame size.
pub open spec fn header_check(h: FrameHeader) -> Result<()> {
    if h.magic != FRAME_MAGIC {
        Err(Error::InvalidMagic)
    } else if h.ver != 1 {
        Err(Error::UnsupportedVersion)
    } else if h.flags & 0xF8u8 != 0 {
        Err(Error::FlagConflict)
    } else if h.len + 20 < MIN_FRAME_SIZE || h.len + 20 > MAX_FRAME_SIZE {
        Err(Error::Overflow)
    } else {
        Ok(())
    }
}

/// What decoding a header from `s` gives.
pub open spec fn header_decode(s: Seq<u8>) -> Result<FrameHeader> {
    if s.len() < 16 {
        Err(Error::UnexpectedEof)
    } else {
        match header_check(header_at(s)) {
            Ok(_) => Ok(header_at(s)),
            Err(e) => Err(e),
        }
    }
}

/// `h` passes validation.
pub open spec fn header_valid(h: FrameHeader) -> bool {
    header_check(h) is Ok
}

/// The header that `FrameHeader::new` builds.
pub open spec fn new_header(msg_type: u16, seq: u32, len: u32) -> FrameHeader {
    FrameHeader { magic: FRAME_MAGIC, ver: 1, flags: 0, msg_type, seq, len }
}

/// The header fields read back from the encoding of `h`, followed by
/// anything, are those of `h`.
pub proof fn lemma_header_at_bytes(h: FrameHeader, rest: Seq<u8>)
    ensures
        header_bytes(h).len() == 16,
        header_at(header_bytes(h) + rest) == h,
{
    let s = header_bytes(h) + rest;
    lemma_le16_roundtrip(h.magic);
    lemma_le16_roundtrip(h.msg_type);
    lemma_le32_roundtrip(h.seq);
    lemma_le32_roundtrip(h.len);
    let m = le16(h.magic);
    let t = le16(h.msg_type);
    let q = le32(h.seq);
    let l = le32(h.len);
    assert(s[0] == m[0] && s[1] == m[1]);
    assert(s[2] == h.ver && s[3] == h.flags);
    assert(s[4] == t[0] && s[5] == t[1]);
    assert(s[6] == q[0] && s[7] == q[1] && s[8] == q[2] && s[9] == q[3]);
    assert(s[10] == l[0] && s[11] == l[1] && s[12] == l[2] && s[13] == l[3]);
}

/// Decoding an encoded header gives the header back when it is valid, and
/// the error that validation reports otherwise, whatever follows it.
pub proof fn lemma_header_roundtrip(h: FrameHeader, rest: Seq<u8>)
    ensures
        header_decode(header_bytes(h) + rest) == match header_check(h) {
            Ok(_) => Ok::<FrameHeader, Error>(h),
            Err(e) => Err::<FrameHeader, Error>(e),
        },
{
    lemma_header_at_bytes(h, rest);
}

/// `h` with its body length set to `len`.
pub open spec fn with_len(h: FrameHeader, len: u32) -> FrameHeader {
    FrameHeader { len, ..h }
}

/// The complete frame that an encoder begun with `h` produces around
/// `body`: the header with the body's length (as a `u32`), the body, and
/// the CRC32C of both, little-endian.
pub open spec fn frame_bytes(h: FrameHeader, body: Seq<u8>) -> Seq<u8> {
    let hb = header_bytes(with_len(h, body.len() as u32));
    hb + body + le32(crc32c_spec(hb + body))
}

/// The header and body of a frame with the length set, before the
/// checksum is appended.
pub open spec fn frame_unsealed(h: FrameHeader, body: Seq<u8>) -> Seq<u8> {
    header_bytes(with_len(h, body.len() as u32)) + body
}

/// Overwriting the length field of an encoded header encodes the header
/// with that length.
pub proof fn lemma_header_set_len(h: FrameHeader, len: u32, rest: Seq<u8>)
    ensures
        splice(header_bytes(h) + rest, 10, le32(len)) == header_bytes(with_len(h, len)) + rest,
{
    assert(splice(header_bytes(h) + rest, 10, le32(len)) =~= header_bytes(with_len(h, len))
        + rest);
}

/// The bytes an encoder holds when it finishes a frame begun with `h` at
/// `hs` around `body`: setting the length and appending the checksum of
/// header and body leaves `frame_bytes(h, body)` at `hs`.
pub proof fn lemma_finish_frame(buf: Seq<u8>, hs: int, h: FrameHeader, body: Seq<u8>)
    requires
        0 <= hs,
        hs + 16 + body.len() <= buf.len(),
    ensures
        ({
            let hb = header_bytes(with_len(h, body.len() as u32));
            let written = splice(
                splice(buf, hs, header_bytes(h) + body),
                hs + 10,
                le32(body.len() as u32),
            );
            &&& written == splice(buf, hs, hb + body)
            &&& written.subrange(hs, hs + 16 + body.len()) == hb + body
            &&& hs + 16 + body.len() + 4 <= buf.len() ==> splice(
                written,
                hs + 16 + body.len(),
                le32(crc32c_spec(hb + body)),
            ) == splice(buf, hs, frame_bytes(h, body))
        }),
{
    let hb = header_bytes(with_len(h, body.len() as u32));
    let x = header_bytes(h) + body;
    assert(header_bytes(h).len() == 16);
    assert(hb.len() == 16);
    lemma_splice_nested(buf, hs, x, 10, le32(body.len() as u32));
    lemma_header_set_len(h, body.len() as u32, body);
    let written = splice(buf, hs, hb + body);
    assert(written.subrange(hs, hs + 16 + body.len()) =~= hb + body);
    if hs + 16 + body.len() + 4 <= buf.len() {
        lemma_splice_append(buf, hs, hb + body, le32(crc32c_spec(hb + body)));
    }
}

/// After `set_flag` with a nonzero flag, `has_flag` reports it; after
/// `clear_flag`, it does not; the flags outside it are kept either way.
pub proof fn lemma_flag_set_clear(flags: u8, flag: u8, other: u8)
    requires
        flag != 0,
        other & flag == 0,
    ensures
        (flags | flag) & flag != 0,
        (flags & !flag) & flag == 0,
        (flags | flag) & other == flags & other,
        (flags & !flag) & other == flags & other,
{
    assert(flag != 0 ==> (flags | flag) & flag != 0) by (bit_vector);
    assert((flags & !flag) & flag == 0) by (bit_vector);
    assert(other & flag == 0 ==> (flags | flag) & other == flags & other) by (bit_vector);
    assert(other & flag == 0 ==> (flags & !flag) & other == flags & other) by (bit_vector);
}

impl Default for FrameHeader {
    fn default() -> (h: Self)
        ensures
            h == new_header(0, 0, 0),
    {
        Self { magic: FRAME_MAGIC, ver: 1, flags: 0, msg_type: 0, seq: 0, len: 0 }
    }
}

/// Writes the encoding of `h` at `at`.
pub(crate) fn write_header_at(h: &FrameHeader, buf: &mut [u8], at: usize)
    requires
        at + 16 <= old(buf)@.len(),
    ensures
        final(buf)@ == splice(old(buf)@, at as int, header_bytes(*h)),
{
    let ghost s0 = buf@;
    let len = buf.len();
    assert(at + 16 <= len);
    write_u16_at(buf, at, h.magic);
    buf[at + 2] = h.ver;
    buf[at + 3] = h.flags;
    write_u16_at(buf, at + 4, h.msg_type);
    write_u32_at(buf, at + 6, h.seq);
    write_u32_at(buf, at + 10, h.len);
    buf[at + 14] = 0;
    buf[at + 15] = 0;
    proof {
        let hb = header_bytes(*h);
        assert(hb.len() == 16);
        assert forall|i: int| 0 <= i < buf@.len() implies buf@[i] == splice(s0, at as int, hb)[i] by {
            if at <= i < at + 16 {
                let m = le16(h.magic);
                let t = le16(h.msg_type);
                let q = le32(h.seq);
                let l = le32(h.len);
                assert(hb[0] == m[0] && hb[1] == m[1]);
                assert(hb[4] == t[0] && hb[5] == t[1]);
                assert(hb[6] == q[0] && hb[7] == q[1] && hb[8] == q[2] && hb[9] == q[3]);
                assert(hb[10] == l[0] && hb[11] == l[1] && hb[12] == l[2] && hb[13] == l[3]);
            }
        }
        assert(buf@ =~= splice(s0, at as int, hb));
    }
}

impl FrameHeader {
    /// Header size in bytes (fixed)
    pub const SIZE: usize = 16;

    /// Create a new frame header
    pub fn new(msg_type: u16, seq: u32, len: u32) -> (h: Self)
        ensures
            h == new_header(msg_type, seq, len),
    {
        Self { magic: FRAME_MAGIC, ver: 1, flags: 0, msg_type, seq, len }
    }

    /// Set a flag bit
    pub fn set_flag(&mut self, flag: u8)
        ensures
            *final(self) == (FrameHeader { flags: old(self).flags | flag, ..*old(self) }),
    {
        self.flags = self.flags | flag;
    }

    /// Clear a flag bit
    pub fn clear_flag(&mut self, flag: u8)
        ensures
            *final(self) == (FrameHeader { flags: old(self).flags & !flag, ..*old(self) }),
    {
        self.flags = self.flags & !flag;
    }

    /// Check if a flag bit is set
    pub fn has_flag(&self, flag: u8) -> (b: bool)
        ensures
            b == (self.flags & flag != 0),
    {
        self.flags & flag != 0
    }

    /// Validate frame header
    pub fn validate(&self) -> (r: Result<()>)
        ensures
            r == header_check(*self),
    {
        if self.magic != FRAME_MAGIC {
            return Err(Error::InvalidMagic);
        }
        if self.ver != 1 {
            return Err(Error::UnsupportedVersion);
        }
        if self.flags & FrameFlags::RESERVED != 0 {
            return Err(Error::FlagConflict);
        }
        let total_size = match (self.len as usize).checked_add(Self::SIZE) {
            Some(s) => match s.checked_add(4) {
                Some(t) => t,
                None => return Err(Error::Overflow),
            },
            None => return Err(Error::Overflow),
        };
        if total_size < MIN_FRAME_SIZE || total_size > MAX_FRAME_SIZE {
            return Err(Error::Overflow);
        }
        Ok(())
    }

    /// Encode header to bytes (little-endian)
    pub fn encode(&self, buf: &mut [u8]) -> (r: Result<()>)
        ensures
            old(buf)@.len() < 16 ==> r == Err::<(), Error>(Error::ShortBuffer) && final(buf)@
                == old(buf)@,
            old(buf)@.len() >= 16 ==> r == Ok::<(), Error>(()) && final(buf)@ == splice(
                old(buf)@,
                0,
                header_bytes(*self),
            ),
    {
        if buf.len() < Self::SIZE {
            return Err(Error::ShortBuffer);
        }
        write_header_at(self, buf, 0);
        Ok(())
    }

    /// Decode header from bytes (little-endian)
    pub fn decode(buf: &[u8]) -> (r: Result<Self>)
        ensures
            r == header_decode(buf@),
    {
        if buf.len() < Self::SIZE {
            return Err(Error::UnexpectedEof);
        }
        let header = Self {
            magic: read_u16_at(buf, 0),
            ver: buf[2],
            flags: buf[3],
            msg_type: read_u16_at(buf, 4),
            seq: read_u32_at(buf, 6),
            len: read_u32_at(buf, 10),
        };
        match header.validate() {
            Ok(()) => Ok(header),
            Err(e) => Err(e),
        }
    }

    /// Calculate total frame size including header and CRC
    pub fn total_size(&self) -> (n: usize)
        requires
            self.len + 20 <= usize::MAX,
        ensures
            n == self.len + 20,
    {
        Self::SIZE + self.len as usize + 4
    }
}

} // verus!
