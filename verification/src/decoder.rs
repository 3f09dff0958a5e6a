//! Zero-copy frame decoder
//!
//! The decoder reads borrowed slices and hands out sub-slices of the frame
//! where it can.

use crate::crc32c;
use crate::crc32c::crc32c_spec;
use crate::error::{Error, Result};
use crate::frame::{
    frame_bytes, header_bytes, header_decode, header_valid, lemma_header_roundtrip, with_len,
    FrameHeader,
};
use crate::varint;
use crate::varint::{decode_u32_spec, decode_u64_spec};
use crate::wire::{
    le32, lemma_le32_roundtrip, lemma_read_in_middle, read_u16_at, read_u32_at, read_u64_at, u16_at,
    u32_at, u64_at,
};
use crate::MAX_FRAME_SIZE;
use vstd::prelude::*;

verus! {

/// Zero-copy frame decoder
#[derive(Debug)]
pub struct FrameDecoder<'a> {
    buf: &'a [u8],
}

/// Cursor for reading body content with position tracking
#[derive(Debug)]
pub struct BodyCursor<'a> {
    /// Buffer containing the body data
    pub buf: &'a [u8],
    /// Current read position
    pub pos: usize,
}

impl<'a> View for FrameDecoder<'a> {
    type V = Seq<u8>;

    closed spec fn view(&self) -> Seq<u8> {
        self.buf@
    }
}

/// The frame size that CRC verification works with: the one the header
/// gives when it decodes, else the one the raw length field gives when it
/// is within bounds.
pub open spec fn claimed_frame_size(buf: Seq<u8>) -> Result<int> {
    match header_decode(buf) {
        Ok(h) => Ok(h.len + 20),
        Err(e) => if buf.len() < 16 {
            Err(Error::UnexpectedEof)
        } else if u32_at(buf, 10) > MAX_FRAME_SIZE - 20 {
            Err(e)
        } else {
            Ok(u32_at(buf, 10) + 20)
        },
    }
}

/// What `verify_crc32c` reports for `buf`: a short buffer, then a checksum
/// mismatch, then any header error; success when the stored checksum
/// matches header and body and the header is valid.
pub open spec fn frame_check(buf: Seq<u8>) -> Result<()> {
    match claimed_frame_size(buf) {
        Err(e) => Err(e),
        Ok(total) => if buf.len() < total {
            Err(Error::UnexpectedEof)
        } else if crc32c_spec(buf.take(total - 4)) != u32_at(buf, total - 4) {
            Err(Error::CrcMismatch)
        } else {
            match header_decode(buf) {
                Ok(_) => Ok(()),
                Err(e) => Err(e),
            }
        },
    }
}

/// What `body` gives for `buf`: the body bytes that the header announces.
pub open spec fn frame_body(buf: Seq<u8>) -> Result<Seq<u8>> {
    match header_decode(buf) {
        Err(e) => Err(e),
        Ok(h) => if buf.len() < 16 + h.len {
            Err(Error::UnexpectedEof)
        } else {
            Ok(buf.subrange(16, 16 + h.len))
        },
    }
}

/// Reading `n` fixed bytes at `pos`: the position after them.
pub open spec fn read_fixed(buf: Seq<u8>, pos: int, n: int) -> Result<int> {
    if pos + n > buf.len() {
        Err(Error::UnexpectedEof)
    } else {
        Ok(pos + n)
    }
}

/// Reading a `u8` at `pos`.
pub open spec fn read_u8(buf: Seq<u8>, pos: int) -> Result<(u8, int)> {
    match read_fixed(buf, pos, 1) {
        Ok(p) => Ok((buf[pos], p)),
        Err(e) => Err(e),
    }
}

/// Reading a little-endian `u16` at `pos`.
pub open spec fn read_u16(buf: Seq<u8>, pos: int) -> Result<(u16, int)> {
    match read_fixed(buf, pos, 2) {
        Ok(p) => Ok((u16_at(buf, pos), p)),
        Err(e) => Err(e),
    }
}

/// Reading a little-endian `u32` at `pos`.
pub open spec fn read_u32(buf: Seq<u8>, pos: int) -> Result<(u32, int)> {
    match read_fixed(buf, pos, 4) {
        Ok(p) => Ok((u32_at(buf, pos), p)),
        Err(e) => Err(e),
    }
}

/// Reading a little-endian `u64` at `pos`.
pub open spec fn read_u64(buf: Seq<u8>, pos: int) -> Result<(u64, int)> {
    match read_fixed(buf, pos, 8) {
        Ok(p) => Ok((u64_at(buf, pos), p)),
        Err(e) => Err(e),
    }
}

/// Reading a varint length and that many bytes at `pos`.
pub open spec fn read_varbytes(buf: Seq<u8>, pos: int) -> Result<(Seq<u8>, int)> {
    match decode_u32_spec(buf.skip(pos)) {
        Err(e) => Err(e),
        Ok((n, k)) => {
            let start = pos + k;
            if start + n > buf.len() {
                Err(Error::UnexpectedEof)
            } else {
                Ok((buf.subrange(start, start + n), start + n))
            }
        },
    }
}

/// A frame that an encoder produced around `body` with a header that is
/// valid once its length is set decodes back: the header with the body's
/// length, a checksum that verifies, and the body itself, whatever bytes
/// follow the frame.
pub proof fn lemma_frame_roundtrip(h: FrameHeader, body: Seq<u8>, rest: Seq<u8>)
    requires
        body.len() <= u32::MAX,
        header_valid(with_len(h, body.len() as u32)),
    ensures
        header_decode(frame_bytes(h, body) + rest) == Ok::<FrameHeader, Error>(
            with_len(h, body.len() as u32),
        ),
        frame_check(frame_bytes(h, body) + rest) == Ok::<(), Error>(()),
        frame_body(frame_bytes(h, body) + rest) == Ok::<Seq<u8>, Error>(body),
{
    let h2 = with_len(h, body.len() as u32);
    let hb = header_bytes(h2);
    let c = crc32c_spec(hb + body);
    let f = frame_bytes(h, body) + rest;
    assert(hb.len() == 16);
    assert(f =~= hb + (body + le32(c) + rest));
    lemma_header_roundtrip(h2, body + le32(c) + rest);
    assert(f =~= (hb + body) + le32(c) + rest);
    lemma_read_in_middle(hb + body, le32(c), rest);
    lemma_le32_roundtrip(c);
    assert(f.take(16 + body.len() as int) =~= hb + body);
    assert(f.subrange(16, 16 + body.len() as int) =~= body);
}

/// Changing any one byte of an encoded frame with a valid header, other
/// than the four bytes of its length field, makes checksum verification
/// report a mismatch, whatever bytes follow the frame.
pub proof fn lemma_frame_corruption_detected(
    h: FrameHeader,
    body: Seq<u8>,
    rest: Seq<u8>,
    i: int,
    v: u8,
)
    requires
        body.len() <= u32::MAX,
        header_valid(with_len(h, body.len() as u32)),
        0 <= i < 16 + body.len() + 4,
        !(10 <= i < 14),
        v != frame_bytes(h, body)[i],
    ensures
        frame_check(frame_bytes(h, body).update(i, v) + rest) == Err::<(), Error>(
            Error::CrcMismatch,
        ),
{
    let h2 = with_len(h, body.len() as u32);
    let hb = header_bytes(h2);
    let c = crc32c_spec(hb + body);
    let f = frame_bytes(h, body);
    let g = f.update(i, v) + rest;
    let n = body.len() as int;
    assert(hb.len() == 16);
    lemma_le32_roundtrip(c);
    if i < 16 {
        lemma_header_byte_corruption(h, body, rest, i, v);
    } else if i < 16 + n {
        let body2 = body.update(i - 16, v);
        assert(g =~= hb + (body2 + le32(c) + rest));
        lemma_header_roundtrip(h2, body2 + le32(c) + rest);
        assert(g.take(16 + n) =~= hb + body2);
        assert((hb + body).update(i, v) =~= hb + body2);
        crate::crc32c::lemma_crc32c_detects_byte_change(hb + body, i, v);
        assert(g =~= (hb + body2) + le32(c) + rest);
        lemma_read_in_middle(hb + body2, le32(c), rest);
    } else {
        let j = i - 16 - n;
        let stored = le32(c).update(j, v);
        assert(g =~= hb + (body + stored + rest));
        lemma_header_roundtrip(h2, body + stored + rest);
        assert(g.take(16 + n) =~= hb + body);
        assert(g =~= (hb + body) + stored + rest);
        lemma_read_in_middle(hb + body, stored, rest);
        let e = le32(c);
        let (x0, x1, x2, x3) = (e[0], e[1], e[2], e[3]);
        let (y0, y1, y2, y3) = (stored[0], stored[1], stored[2], stored[3]);
        assert(x0 != y0 || x1 != y1 || x2 != y2 || x3 != y3);
        assert((x0 != y0 || x1 != y1 || x2 != y2 || x3 != y3) ==> ((x0 as u32) | ((x1 as u32)
            << 8u32) | ((x2 as u32) << 16u32) | ((x3 as u32) << 24u32)) != ((y0 as u32) | ((y1
            as u32) << 8u32) | ((y2 as u32) << 16u32) | ((y3 as u32) << 24u32))) by (bit_vector);
    }
}

/// Changing a byte after the header of an encoded frame leaves the header
/// decoding as before and makes checksum verification report a mismatch.
pub proof fn lemma_frame_body_corruption(
    h: FrameHeader,
    body: Seq<u8>,
    rest: Seq<u8>,
    i: int,
    v: u8,
)
    requires
        body.len() <= u32::MAX,
        header_valid(with_len(h, body.len() as u32)),
        16 <= i < 16 + body.len() + 4,
        v != frame_bytes(h, body)[i],
    ensures
        header_decode(frame_bytes(h, body).update(i, v) + rest) == Ok::<FrameHeader, Error>(
            with_len(h, body.len() as u32),
        ),
        frame_check(frame_bytes(h, body).update(i, v) + rest) == Err::<(), Error>(
            Error::CrcMismatch,
        ),
{
    let h2 = with_len(h, body.len() as u32);
    let hb = header_bytes(h2);
    let g = frame_bytes(h, body).update(i, v) + rest;
    assert(hb.len() == 16);
    assert(g =~= hb + g.skip(16));
    lemma_header_roundtrip(h2, g.skip(16));
    lemma_frame_corruption_detected(h, body, rest, i, v);
}

/// The header-byte part of `lemma_frame_corruption_detected`.
proof fn lemma_header_byte_corruption(h: FrameHeader, body: Seq<u8>, rest: Seq<u8>, i: int, v: u8)
    requires
        body.len() <= u32::MAX,
        header_valid(with_len(h, body.len() as u32)),
        0 <= i < 16,
        !(10 <= i < 14),
        v != frame_bytes(h, body)[i],
    ensures
        frame_check(frame_bytes(h, body).update(i, v) + rest) == Err::<(), Error>(
            Error::CrcMismatch,
        ),
{
    let h2 = with_len(h, body.len() as u32);
    let hb = header_bytes(h2);
    let c = crc32c_spec(hb + body);
    let f = frame_bytes(h, body);
    let g = f.update(i, v) + rest;
    let n = body.len() as int;
    let tail = body + le32(c) + rest;
    assert(hb.len() == 16);
    lemma_le32_roundtrip(c);
    crate::frame::lemma_header_at_bytes(h2, tail);
    let s = hb + tail;
    assert(g[10] == s[10] && g[11] == s[11] && g[12] == s[12] && g[13] == s[13]);
    assert(u32_at(g, 10) == u32_at(s, 10));
    assert(u32_at(g, 10) == h2.len);
    assert(claimed_frame_size(g) == Ok::<int, Error>(n + 20));
    assert(g.take(16 + n) =~= (hb + body).update(i, v));
    crate::crc32c::lemma_crc32c_detects_byte_change(hb + body, i, v);
    assert(g =~= (hb + body).update(i, v) + le32(c) + rest);
    lemma_read_in_middle((hb + body).update(i, v), le32(c), rest);
}

/// Reading within `buf` reads the same when more bytes follow it.
pub proof fn lemma_reads_extend(buf: Seq<u8>, extra: Seq<u8>, pos: int)
    requires
        0 <= pos <= buf.len(),
    ensures
        read_u8(buf, pos) is Ok ==> read_u8(buf + extra, pos) == read_u8(buf, pos),
        read_u16(buf, pos) is Ok ==> read_u16(buf + extra, pos) == read_u16(buf, pos),
        read_u32(buf, pos) is Ok ==> read_u32(buf + extra, pos) == read_u32(buf, pos),
        read_u64(buf, pos) is Ok ==> read_u64(buf + extra, pos) == read_u64(buf, pos),
        read_varbytes(buf, pos) is Ok ==> read_varbytes(buf + extra, pos) == read_varbytes(
            buf,
            pos,
        ),
{
    let s = buf + extra;
    assert forall|i: int| 0 <= i < buf.len() implies #[trigger] s[i] == buf[i] by {}
    if read_varbytes(buf, pos) is Ok {
        assert(s.skip(pos) =~= buf.skip(pos) + extra);
        crate::varint::lemma_decode_u32_extend(buf.skip(pos), extra);
        let (n, k) = decode_u32_spec(buf.skip(pos))->Ok_0;
        let start = pos + k;
        assert(s.subrange(start, start + n) =~= buf.subrange(start, start + n));
    }
    if read_u64(buf, pos) is Ok {
        assert(s[pos] == buf[pos] && s[pos + 1] == buf[pos + 1] && s[pos + 2] == buf[pos + 2]
            && s[pos + 3] == buf[pos + 3]);
        assert(s[pos + 4] == buf[pos + 4] && s[pos + 5] == buf[pos + 5] && s[pos + 6] == buf[pos
            + 6] && s[pos + 7] == buf[pos + 7]);
    }
    if read_u32(buf, pos) is Ok {
        assert(s[pos] == buf[pos] && s[pos + 1] == buf[pos + 1] && s[pos + 2] == buf[pos + 2]
            && s[pos + 3] == buf[pos + 3]);
    }
    if read_u16(buf, pos) is Ok {
        assert(s[pos] == buf[pos] && s[pos + 1] == buf[pos + 1]);
    }
}

/// A cursor whose position is within its buffer (as every cursor that
/// `body` returns is, and as every cursor method keeps it, whatever it
/// returns) has `buf.len() - pos` bytes remaining, and is at the end exactly
/// when none remain.
pub proof fn lemma_cursor_position(c: BodyCursor)
    requires
        c.in_bounds(),
    ensures
        0 <= c.buf@.len() - c.pos <= c.buf@.len(),
        (c.pos >= c.buf@.len()) == (c.buf@.len() - c.pos == 0),
{
}

impl<'a> FrameDecoder<'a> {
    /// Create new decoder for the given buffer
    pub fn new(buf: &'a [u8]) -> (d: Self)
        ensures
            d@ == buf@,
    {
        Self { buf }
    }

    /// Decode and validate the frame header
    pub fn header(&self) -> (r: Result<FrameHeader>)
        ensures
            r == header_decode(self@),
    {
        FrameHeader::decode(self.buf)
    }

    /// Verify CRC32C checksum of the frame
    ///
    /// When the header does not decode but the raw length field is within
    /// bounds, the checksum is still checked, so that a corrupted header is
    /// reported as a checksum mismatch.
    pub fn verify_crc32c(&self) -> (r: Result<()>)
        ensures
            r == frame_check(self@),
    {
        let header_result = self.header();
        let total_size = match header_result {
            Ok(header) => header.total_size(),
            Err(e) => {
                if self.buf.len() < FrameHeader::SIZE {
                    return Err(Error::UnexpectedEof);
                }
                let len = read_u32_at(self.buf, 10) as usize;
                if len > MAX_FRAME_SIZE - FrameHeader::SIZE - 4 {
                    return Err(e);
                }
                FrameHeader::SIZE + len + 4
            },
        };
        if self.buf.len() < total_size {
            return Err(Error::UnexpectedEof);
        }
        let crc_start = total_size - 4;
        let frame_data = &self.buf[0..crc_start];
        let stored_crc = read_u32_at(self.buf, crc_start);
        proof {
            assert(frame_data@ =~= self.buf@.take(crc_start as int));
        }
        if !crc32c::verify_crc32c(frame_data, stored_crc) {
            return Err(Error::CrcMismatch);
        }
        match header_result {
            Err(e) => Err(e),
            Ok(_) => Ok(()),
        }
    }

    /// Get body cursor for reading body content
    pub fn body(&self) -> (r: Result<BodyCursor<'a>>)
        ensures
            match frame_body(self@) {
                Ok(body) => r matches Ok(c) && c.buf@ == body && c.pos == 0 && c.in_bounds(),
                Err(e) => r matches Err(e2) && e2 == e,
            },
    {
        let header = self.header()?;
        let body_start = FrameHeader::SIZE;
        let body_end = body_start + header.len as usize;
        if self.buf.len() < body_end {
            return Err(Error::UnexpectedEof);
        }
        Ok(BodyCursor { buf: &self.buf[body_start..body_end], pos: 0 })
    }

    /// Get entire frame buffer including header and CRC
    pub fn frame_buffer(&self) -> (r: Result<&'a [u8]>)
        ensures
            match header_decode(self@) {
                Ok(h) => if self@.len() < h.len + 20 {
                    r matches Err(e) && e == Error::UnexpectedEof
                } else {
                    r matches Ok(s) && s@ == self@.take(h.len + 20)
                },
                Err(e) => r matches Err(e2) && e2 == e,
            },
    {
        let header = self.header()?;
        let total_size = header.total_size();
        if self.buf.len() < total_size {
            return Err(Error::UnexpectedEof);
        }
        Ok(&self.buf[0..total_size])
    }
}


impl<'a> BodyCursor<'a> {
    /// The position is within the buffer. `body` hands out cursors where
    /// this holds, and every method keeps it.
    pub open spec fn in_bounds(&self) -> bool {
        self.pos <= self.buf@.len()
    }

    /// Get remaining bytes in cursor
    pub fn remaining(&self) -> (n: usize)
        requires
            self.pos <= self.buf@.len(),
        ensures
            n == self.buf@.len() - self.pos,
    {
        self.buf.len() - self.pos
    }

    /// Check if cursor is at end
    pub fn is_at_end(&self) -> (b: bool)
        ensures
            b == (self.pos >= self.buf@.len()),
    {
        self.pos >= self.buf.len()
    }

    /// Skip bytes in the cursor
    pub fn skip(&mut self, n: usize) -> (r: Result<()>)
        ensures
            final(self).buf@ == old(self).buf@,
            old(self).in_bounds() ==> final(self).in_bounds(),
            match read_fixed(old(self).buf@, old(self).pos as int, n as int) {
                Ok(p) => r == Ok::<(), Error>(()) && final(self).pos == p,
                Err(e) => r == Err::<(), Error>(e) && final(self).pos == old(self).pos,
            },
    {
        if self.pos > self.buf.len() || n > self.buf.len() - self.pos {
            return Err(Error::UnexpectedEof);
        }
        self.pos = self.pos + n;
        Ok(())
    }

    /// Read a u8 value
    pub fn get_u8(&mut self) -> (r: Result<u8>)
        ensures
            final(self).buf@ == old(self).buf@,
            old(self).in_bounds() ==> final(self).in_bounds(),
            match read_u8(old(self).buf@, old(self).pos as int) {
                Ok((v, p)) => r == Ok::<u8, Error>(v) && final(self).pos == p,
                Err(e) => r == Err::<u8, Error>(e) && final(self).pos == old(self).pos,
            },
    {
        if self.pos >= self.buf.len() {
            return Err(Error::UnexpectedEof);
        }
        let value = self.buf[self.pos];
        self.pos = self.pos + 1;
        Ok(value)
    }

    /// Read a u16 value (little-endian)
    pub fn get_u16(&mut self) -> (r: Result<u16>)
        ensures
            final(self).buf@ == old(self).buf@,
            old(self).in_bounds() ==> final(self).in_bounds(),
            match read_u16(old(self).buf@, old(self).pos as int) {
                Ok((v, p)) => r == Ok::<u16, Error>(v) && final(self).pos == p,
                Err(e) => r == Err::<u16, Error>(e) && final(self).pos == old(self).pos,
            },
    {
        if self.pos > self.buf.len() || self.buf.len() - self.pos < 2 {
            return Err(Error::UnexpectedEof);
        }
        let value = read_u16_at(self.buf, self.pos);
        self.pos = self.pos + 2;
        Ok(value)
    }

    /// Read a u32 value (little-endian)
    pub fn get_u32(&mut self) -> (r: Result<u32>)
        ensures
            final(self).buf@ == old(self).buf@,
            old(self).in_bounds() ==> final(self).in_bounds(),
            match read_u32(old(self).buf@, old(self).pos as int) {
                Ok((v, p)) => r == Ok::<u32, Error>(v) && final(self).pos == p,
                Err(e) => r == Err::<u32, Error>(e) && final(self).pos == old(self).pos,
            },
    {
        if self.pos > self.buf.len() || self.buf.len() - self.pos < 4 {
            return Err(Error::UnexpectedEof);
        }
        let value = read_u32_at(self.buf, self.pos);
        self.pos = self.pos + 4;
        Ok(value)
    }

    /// Read a u64 value (little-endian)
    pub fn get_u64(&mut self) -> (r: Result<u64>)
        ensures
            final(self).buf@ == old(self).buf@,
            old(self).in_bounds() ==> final(self).in_bounds(),
            match read_u64(old(self).buf@, old(self).pos as int) {
                Ok((v, p)) => r == Ok::<u64, Error>(v) && final(self).pos == p,
                Err(e) => r == Err::<u64, Error>(e) && final(self).pos == old(self).pos,
            },
    {
        if self.pos > self.buf.len() || self.buf.len() - self.pos < 8 {
            return Err(Error::UnexpectedEof);
        }
        let value = read_u64_at(self.buf, self.pos);
        self.pos = self.pos + 8;
        Ok(value)
    }

    /// Read an i32 value (little-endian)
    pub fn get_i32(&mut self) -> (r: Result<i32>)
        ensures
            final(self).buf@ == old(self).buf@,
            old(self).in_bounds() ==> final(self).in_bounds(),
            match read_u32(old(self).buf@, old(self).pos as int) {
                Ok((v, p)) => r == Ok::<i32, Error>(v as i32) && final(self).pos == p,
                Err(e) => r == Err::<i32, Error>(e) && final(self).pos == old(self).pos,
            },
    {
        Ok(self.get_u32()? as i32)
    }

    /// Read an i64 value (little-endian)
    pub fn get_i64(&mut self) -> (r: Result<i64>)
        ensures
            final(self).buf@ == old(self).buf@,
            old(self).in_bounds() ==> final(self).in_bounds(),
            match read_u64(old(self).buf@, old(self).pos as int) {
                Ok((v, p)) => r == Ok::<i64, Error>(v as i64) && final(self).pos == p,
                Err(e) => r == Err::<i64, Error>(e) && final(self).pos == old(self).pos,
            },
    {
        Ok(self.get_u64()? as i64)
    }

    /// Read a presence bitmap (16-bit)
    pub fn get_bitmap(&mut self) -> (r: Result<u16>)
        ensures
            final(self).buf@ == old(self).buf@,
            old(self).in_bounds() ==> final(self).in_bounds(),
            match read_u16(old(self).buf@, old(self).pos as int) {
                Ok((v, p)) => r == Ok::<u16, Error>(v) && final(self).pos == p,
                Err(e) => r == Err::<u16, Error>(e) && final(self).pos == old(self).pos,
            },
    {
        self.get_u16()
    }

    /// Read variable-length bytes with length prefix
    ///
    /// Returns a zero-copy slice into the original buffer. When the length
    /// prefix decodes but the bytes run past the end, the position stays
    /// after the prefix.
    pub fn get_varbytes(&mut self) -> (r: Result<&'a [u8]>)
        requires
            old(self).pos <= old(self).buf@.len(),
        ensures
            final(self).buf@ == old(self).buf@,
            old(self).in_bounds() ==> final(self).in_bounds(),
            match read_varbytes(old(self).buf@, old(self).pos as int) {
                Ok((bytes, p)) => r matches Ok(s) && s@ == bytes && final(self).pos == p,
                Err(e) => r matches Err(e2) && e2 == e,
            },
            match decode_u32_spec(old(self).buf@.skip(old(self).pos as int)) {
                Ok((n, k)) => r is Err ==> final(self).pos == old(self).pos + k,
                Err(_) => final(self).pos == old(self).pos,
            },
    {
        let remaining_buf = &self.buf[self.pos..self.buf.len()];
        proof {
            assert(remaining_buf@ =~= self.buf@.skip(self.pos as int));
        }
        let (len, varint_size) = varint::decode_u32(remaining_buf)?;
        proof {
            varint::lemma_decode_u32_size(remaining_buf@);
        }
        self.pos = self.pos + varint_size;
        let len = len as usize;
        if len > self.buf.len() - self.pos {
            return Err(Error::UnexpectedEof);
        }
        let bytes = &self.buf[self.pos..self.pos + len];
        self.pos = self.pos + len;
        Ok(bytes)
    }

    /// Read raw bytes without length prefix
    pub fn get_bytes(&mut self, len: usize) -> (r: Result<&'a [u8]>)
        ensures
            final(self).buf@ == old(self).buf@,
            old(self).in_bounds() ==> final(self).in_bounds(),
            match read_fixed(old(self).buf@, old(self).pos as int, len as int) {
                Ok(p) => r matches Ok(s) && s@ == old(self).buf@.subrange(
                    old(self).pos as int,
                    p,
                ) && final(self).pos == p,
                Err(e) => r matches Err(e2) && e2 == e && final(self).pos == old(self).pos,
            },
    {
        if self.pos > self.buf.len() || len > self.buf.len() - self.pos {
            return Err(Error::UnexpectedEof);
        }
        let bytes = &self.buf[self.pos..self.pos + len];
        self.pos = self.pos + len;
        Ok(bytes)
    }

    /// Read a varint-encoded u32
    pub fn get_varint_u32(&mut self) -> (r: Result<u32>)
        requires
            old(self).pos <= old(self).buf@.len(),
        ensures
            final(self).buf@ == old(self).buf@,
            old(self).in_bounds() ==> final(self).in_bounds(),
            match decode_u32_spec(old(self).buf@.skip(old(self).pos as int)) {
                Ok((v, k)) => r == Ok::<u32, Error>(v) && final(self).pos == old(self).pos + k,
                Err(e) => r == Err::<u32, Error>(e) && final(self).pos == old(self).pos,
            },
    {
        let remaining_buf = &self.buf[self.pos..self.buf.len()];
        proof {
            assert(remaining_buf@ =~= self.buf@.skip(self.pos as int));
        }
        let (value, varint_size) = varint::decode_u32(remaining_buf)?;
        proof {
            varint::lemma_decode_u32_size(remaining_buf@);
        }
        self.pos = self.pos + varint_size;
        Ok(value)
    }

    /// Read a varint-encoded u64
    pub fn get_varint_u64(&mut self) -> (r: Result<u64>)
        requires
            old(self).pos <= old(self).buf@.len(),
        ensures
            final(self).buf@ == old(self).buf@,
            old(self).in_bounds() ==> final(self).in_bounds(),
            match decode_u64_spec(old(self).buf@.skip(old(self).pos as int)) {
                Ok((v, k)) => r == Ok::<u64, Error>(v) && final(self).pos == old(self).pos + k,
                Err(e) => r == Err::<u64, Error>(e) && final(self).pos == old(self).pos,
            },
    {
        let remaining_buf = &self.buf[self.pos..self.buf.len()];
        proof {
            assert(remaining_buf@ =~= self.buf@.skip(self.pos as int));
        }
        let (value, varint_size) = varint::decode_u64(remaining_buf)?;
        proof {
            varint::lemma_decode_u64_size(remaining_buf@);
        }
        self.pos = self.pos + varint_size;
        Ok(value)
    }

    /// Peek at bytes without advancing cursor
    pub fn peek_bytes(&self, len: usize) -> (r: Result<&'a [u8]>)
        ensures
            match read_fixed(self.buf@, self.pos as int, len as int) {
                Ok(p) => r matches Ok(s) && s@ == self.buf@.subrange(self.pos as int, p),
                Err(e) => r matches Err(e2) && e2 == e,
            },
    {
        if self.pos > self.buf.len() || len > self.buf.len() - self.pos {
            return Err(Error::UnexpectedEof);
        }
        Ok(&self.buf[self.pos..self.pos + len])
    }
}

} // verus!
