//! Frame encoder that writes into a caller-provided buffer without
//! allocating.
//!
//! The encoder borrows the buffer for its whole life; its fields are public
//! so that contracts can say what ends up in the borrowed buffer. The
//! positions keep `header_start <= body_start <= pos <= buf.len()`
//! (`wf`), which every method requires and keeps.

use crate::crc32c;
use crate::crc32c::crc32c_spec;
use crate::error::{Error, Result};
use crate::frame::{header_bytes, write_header_at, FrameHeader};
use crate::varint::{encode_varint_at, varint_bytes, varint_written};
use crate::wire::{
    le16, le32, le64, splice, write_bytes_at, write_u16_at, write_u32_at, write_u64_at,
};
use vstd::prelude::*;

verus! {

/// Frame encoder that writes into a user-provided buffer
pub struct FrameEncoder<'a> {
    /// The buffer frames are written into
    pub buf: &'a mut [u8],
    /// Where the next byte goes
    pub pos: usize,
    /// Where the current frame's header starts
    pub header_start: usize,
    /// Where the current frame's body starts
    pub body_start: usize,
}

/// An encoder keeps its positions ordered and within the buffer: `new`
/// and `reset` give such an encoder and every method keeps it so, whatever
/// it returns. Then `position()` never passes the buffer's length and
/// `position() + remaining()` is that length.
pub proof fn lemma_encoder_position(e: FrameEncoder)
    requires
        e.wf(),
    ensures
        e.pos <= e.contents().len(),
        e.pos + (e.contents().len() - e.pos) == e.contents().len(),
{
}

impl<'a> FrameEncoder<'a> {
    /// The bytes of the borrowed buffer now.
    pub open spec fn contents(&self) -> Seq<u8> {
        self.buf@
    }

    /// The positions are ordered and within the buffer.
    pub open spec fn wf(&self) -> bool {
        self.header_start <= self.body_start <= self.pos <= self.buf@.len()
    }

    /// `n` more bytes fit after `pos`.
    pub open spec fn fits(&self, n: nat) -> bool {
        self.pos + n <= self.buf@.len()
    }

    /// `next` is `self` after writing `data` at `pos` and moving past it.
    pub open spec fn wrote(&self, next: &Self, data: Seq<u8>) -> bool {
        &&& next.buf@ == splice(self.buf@, self.pos as int, data)
        &&& next.pos == self.pos + data.len()
        &&& next.header_start == self.header_start
        &&& next.body_start == self.body_start
    }

    /// `next` is `self` with nothing changed.
    pub open spec fn unchanged(&self, next: &Self) -> bool {
        &&& next.buf@ == self.buf@
        &&& next.pos == self.pos
        &&& next.header_start == self.header_start
        &&& next.body_start == self.body_start
    }

    /// Create new encoder with the given buffer
    pub fn new(buf: &'a mut [u8]) -> (enc: Self)
        ensures
            enc.wf(),
            enc.buf@ == old(buf)@,
            final(enc.buf)@ == final(buf)@,
            enc.pos == 0,
            enc.header_start == 0,
            enc.body_start == 0,
    {
        Self { buf, pos: 0, header_start: 0, body_start: 0 }
    }

    /// Begin encoding a frame with the given header
    pub fn begin(&mut self, header: &FrameHeader) -> (r: Result<()>)
        requires
            old(self).wf(),
        ensures
            final(self).wf(),
            final(final(self).buf)@ == final(old(self).buf)@,
            !old(self).fits(16) ==> r == Err::<(), Error>(Error::ShortBuffer) && old(
                self,
            ).unchanged(&*final(self)),
            old(self).fits(16) ==> {
                &&& r == Ok::<(), Error>(())
                &&& final(self).buf@ == splice(
                    old(self).buf@,
                    old(self).pos as int,
                    header_bytes(*header),
                )
                &&& final(self).header_start == old(self).pos
                &&& final(self).pos == old(self).pos + 16
                &&& final(self).body_start == final(self).pos
            },
    {
        if self.buf.len() - self.pos < FrameHeader::SIZE {
            return Err(Error::ShortBuffer);
        }
        self.header_start = self.pos;
        write_header_at(header, self.buf, self.pos);
        self.pos = self.pos + FrameHeader::SIZE;
        self.body_start = self.pos;
        Ok(())
    }

    /// Write a u8 value
    pub fn put_u8(&mut self, value: u8) -> (r: Result<()>)
        requires
            old(self).wf(),
        ensures
            final(self).wf(),
            final(final(self).buf)@ == final(old(self).buf)@,
            old(self).fits(1) ==> r == Ok::<(), Error>(()) && old(self).wrote(
                &*final(self),
                seq![value],
            ),
            !old(self).fits(1) ==> r == Err::<(), Error>(Error::ShortBuffer) && old(
                self,
            ).unchanged(&*final(self)),
    {
        if self.pos >= self.buf.len() {
            return Err(Error::ShortBuffer);
        }
        let ghost b0 = self.buf@;
        self.buf[self.pos] = value;
        assert(self.buf@ =~= splice(b0, self.pos as int, seq![value]));
        self.pos = self.pos + 1;
        Ok(())
    }

    /// Write a u16 value (little-endian)
    pub fn put_u16(&mut self, value: u16) -> (r: Result<()>)
        requires
            old(self).wf(),
        ensures
            final(self).wf(),
            final(final(self).buf)@ == final(old(self).buf)@,
            old(self).fits(2) ==> r == Ok::<(), Error>(()) && old(self).wrote(
                &*final(self),
                le16(value),
            ),
            !old(self).fits(2) ==> r == Err::<(), Error>(Error::ShortBuffer) && old(
                self,
            ).unchanged(&*final(self)),
    {
        if self.buf.len() - self.pos < 2 {
            return Err(Error::ShortBuffer);
        }
        write_u16_at(self.buf, self.pos, value);
        self.pos = self.pos + 2;
        Ok(())
    }

    /// Write a u32 value (little-endian)
    pub fn put_u32(&mut self, value: u32) -> (r: Result<()>)
        requires
            old(self).wf(),
        ensures
            final(self).wf(),
            final(final(self).buf)@ == final(old(self).buf)@,
            old(self).fits(4) ==> r == Ok::<(), Error>(()) && old(self).wrote(
                &*final(self),
                le32(value),
            ),
            !old(self).fits(4) ==> r == Err::<(), Error>(Error::ShortBuffer) && old(
                self,
            ).unchanged(&*final(self)),
    {
        if self.buf.len() - self.pos < 4 {
            return Err(Error::ShortBuffer);
        }
        write_u32_at(self.buf, self.pos, value);
        self.pos = self.pos + 4;
        Ok(())
    }

    /// Write a u64 value (little-endian)
    pub fn put_u64(&mut self, value: u64) -> (r: Result<()>)
        requires
            old(self).wf(),
        ensures
            final(self).wf(),
            final(final(self).buf)@ == final(old(self).buf)@,
            old(self).fits(8) ==> r == Ok::<(), Error>(()) && old(self).wrote(
                &*final(self),
                le64(value),
            ),
            !old(self).fits(8) ==> r == Err::<(), Error>(Error::ShortBuffer) && old(
                self,
            ).unchanged(&*final(self)),
    {
        if self.buf.len() - self.pos < 8 {
            return Err(Error::ShortBuffer);
        }
        write_u64_at(self.buf, self.pos, value);
        self.pos = self.pos + 8;
        Ok(())
    }

    /// Write an i32 value (little-endian)
    pub fn put_i32(&mut self, value: i32) -> (r: Result<()>)
        requires
            old(self).wf(),
        ensures
            final(self).wf(),
            final(final(self).buf)@ == final(old(self).buf)@,
            old(self).fits(4) ==> r == Ok::<(), Error>(()) && old(self).wrote(
                &*final(self),
                le32(value as u32),
            ),
            !old(self).fits(4) ==> r == Err::<(), Error>(Error::ShortBuffer) && old(
                self,
            ).unchanged(&*final(self)),
    {
        self.put_u32(value as u32)
    }

    /// Write an i64 value (little-endian)
    pub fn put_i64(&mut self, value: i64) -> (r: Result<()>)
        requires
            old(self).wf(),
        ensures
            final(self).wf(),
            final(final(self).buf)@ == final(old(self).buf)@,
            old(self).fits(8) ==> r == Ok::<(), Error>(()) && old(self).wrote(
                &*final(self),
                le64(value as u64),
            ),
            !old(self).fits(8) ==> r == Err::<(), Error>(Error::ShortBuffer) && old(
                self,
            ).unchanged(&*final(self)),
    {
        self.put_u64(value as u64)
    }

    /// Write a presence bitmap (always in the 16-bit format)
    pub fn put_bitmap(&mut self, bitmap: u16) -> (r: Result<()>)
        requires
            old(self).wf(),
        ensures
            final(self).wf(),
            final(final(self).buf)@ == final(old(self).buf)@,
            old(self).fits(2) ==> r == Ok::<(), Error>(()) && old(self).wrote(
                &*final(self),
                le16(bitmap),
            ),
            !old(self).fits(2) ==> r == Err::<(), Error>(Error::ShortBuffer) && old(
                self,
            ).unchanged(&*final(self)),
    {
        self.put_u16(bitmap)
    }

    /// Write variable-length bytes with length prefix
    ///
    /// The prefix is the varint of the length taken as a `u32`. When the
    /// prefix fits but the bytes do not, the prefix stays written and the
    /// position moves past it.
    pub fn put_varbytes(&mut self, bytes: &[u8]) -> (r: Result<()>)
        requires
            old(self).wf(),
        ensures
            final(self).wf(),
            final(final(self).buf)@ == final(old(self).buf)@,
            ({
                let prefix = varint_bytes((bytes@.len() as u32) as nat);
                let room = (old(self).buf@.len() - old(self).pos) as nat;
                if prefix.len() > room {
                    &&& r == Err::<(), Error>(Error::ShortBuffer)
                    &&& final(self).buf@ == splice(
                        old(self).buf@,
                        old(self).pos as int,
                        prefix.take(room as int),
                    )
                    &&& final(self).pos == old(self).pos
                    &&& final(self).header_start == old(self).header_start
                    &&& final(self).body_start == old(self).body_start
                } else if !old(self).fits(prefix.len() + bytes@.len()) {
                    &&& r == Err::<(), Error>(Error::ShortBuffer)
                    &&& old(self).wrote(&*final(self), prefix)
                } else {
                    &&& r == Ok::<(), Error>(())
                    &&& old(self).wrote(&*final(self), prefix + bytes@)
                }
            }),
    {
        let ghost b0 = self.buf@;
        let ghost p0 = self.pos;
        // Reading the length tells the prover that it fits in a usize.
        let _len = self.buf.len();
        let ghost prefix = varint_bytes((bytes@.len() as u32) as nat);
        let varint_len = match encode_varint_at(self.buf, self.pos, (#[verifier::truncate] (bytes.len() as u32)) as u64) {
            Ok(n) => n,
            Err(e) => {
                proof {
                    assert(varint_written((bytes@.len() as u32) as nat, (b0.len() - p0) as nat)
                        == prefix.take((b0.len() - p0) as int));
                }
                return Err(e);
            },
        };
        self.pos = self.pos + varint_len;
        if bytes.len() > self.buf.len() - self.pos {
            return Err(Error::ShortBuffer);
        }
        write_bytes_at(self.buf, self.pos, bytes);
        proof {
            assert(self.buf@ =~= splice(b0, p0 as int, prefix + bytes@));
        }
        self.pos = self.pos + bytes.len();
        Ok(())
    }

    /// Write raw bytes without length prefix
    pub fn put_bytes(&mut self, bytes: &[u8]) -> (r: Result<()>)
        requires
            old(self).wf(),
        ensures
            final(self).wf(),
            final(final(self).buf)@ == final(old(self).buf)@,
            old(self).fits(bytes@.len()) ==> r == Ok::<(), Error>(()) && old(self).wrote(
                &*final(self),
                bytes@,
            ),
            !old(self).fits(bytes@.len()) ==> r == Err::<(), Error>(Error::ShortBuffer) && old(
                self,
            ).unchanged(&*final(self)),
    {
        if bytes.len() > self.buf.len() - self.pos {
            return Err(Error::ShortBuffer);
        }
        write_bytes_at(self.buf, self.pos, bytes);
        self.pos = self.pos + bytes.len();
        Ok(())
    }

    /// Write a varint-encoded u32
    ///
    /// When the encoding does not fit, the bytes that fit stay written and
    /// the position does not move.
    pub fn put_varint_u32(&mut self, value: u32) -> (r: Result<()>)
        requires
            old(self).wf(),
        ensures
            final(self).wf(),
            final(final(self).buf)@ == final(old(self).buf)@,
            old(self).fits(varint_bytes(value as nat).len()) ==> r == Ok::<(), Error>(()) && old(
                self,
            ).wrote(&*final(self), varint_bytes(value as nat)),
            !old(self).fits(varint_bytes(value as nat).len()) ==> {
                &&& r == Err::<(), Error>(Error::ShortBuffer)
                &&& final(self).buf@ == splice(
                    old(self).buf@,
                    old(self).pos as int,
                    varint_written(value as nat, (old(self).buf@.len() - old(self).pos) as nat),
                )
                &&& final(self).pos == old(self).pos
                &&& final(self).header_start == old(self).header_start
                &&& final(self).body_start == old(self).body_start
            },
    {
        // Reading the length tells the prover that it fits in a usize.
        let _len = self.buf.len();
        let n = encode_varint_at(self.buf, self.pos, value as u64)?;
        self.pos = self.pos + n;
        Ok(())
    }

    /// Write a varint-encoded u64
    ///
    /// When the encoding does not fit, the bytes that fit stay written and
    /// the position does not move.
    pub fn put_varint_u64(&mut self, value: u64) -> (r: Result<()>)
        requires
            old(self).wf(),
        ensures
            final(self).wf(),
            final(final(self).buf)@ == final(old(self).buf)@,
            old(self).fits(varint_bytes(value as nat).len()) ==> r == Ok::<(), Error>(()) && old(
                self,
            ).wrote(&*final(self), varint_bytes(value as nat)),
            !old(self).fits(varint_bytes(value as nat).len()) ==> {
                &&& r == Err::<(), Error>(Error::ShortBuffer)
                &&& final(self).buf@ == splice(
                    old(self).buf@,
                    old(self).pos as int,
                    varint_written(value as nat, (old(self).buf@.len() - old(self).pos) as nat),
                )
                &&& final(self).pos == old(self).pos
                &&& final(self).header_start == old(self).header_start
                &&& final(self).body_start == old(self).body_start
            },
    {
        // Reading the length tells the prover that it fits in a usize.
        let _len = self.buf.len();
        let n = encode_varint_at(self.buf, self.pos, value)?;
        self.pos = self.pos + n;
        Ok(())
    }

    /// Get current position in buffer
    pub fn position(&self) -> (p: usize)
        ensures
            p == self.pos,
    {
        self.pos
    }

    /// Get remaining buffer capacity
    pub fn remaining(&self) -> (n: usize)
        requires
            self.wf(),
        ensures
            n == self.contents().len() - self.pos,
    {
        self.buf.len() - self.pos
    }

    /// Finish encoding and compute CRC32C
    ///
    /// Updates the length field in the header and appends the CRC32C checksum.
    /// Returns the total frame size.
    pub fn finish_crc32c(&mut self) -> (r: Result<usize>)
        requires
            old(self).wf(),
            old(self).header_start + 14 <= old(self).buf@.len(),
        ensures
            final(self).wf(),
            final(final(self).buf)@ == final(old(self).buf)@,
            ({
                let hs = old(self).header_start;
                let with_len = splice(
                    old(self).buf@,
                    hs + 10,
                    le32((old(self).pos - old(self).body_start) as u32),
                );
                let crc = crc32c_spec(with_len.subrange(hs as int, old(self).pos as int));
                if old(self).fits(4) {
                    &&& r == Ok::<usize, Error>((old(self).pos + 4 - hs) as usize)
                    &&& final(self).buf@ == splice(with_len, old(self).pos as int, le32(crc))
                    &&& final(self).pos == old(self).pos + 4
                    &&& final(self).header_start == hs
                    &&& final(self).body_start == old(self).body_start
                } else {
                    &&& r == Err::<usize, Error>(Error::ShortBuffer)
                    &&& final(self).buf@ == with_len
                    &&& final(self).pos == old(self).pos
                    &&& final(self).header_start == hs
                    &&& final(self).body_start == old(self).body_start
                }
            }),
    {
        let len = self.buf.len();
        assert(self.header_start + 14 <= len);
        let body_len = self.pos - self.body_start;
        let len_offset = self.header_start + 10;
        write_u32_at(self.buf, len_offset, #[verifier::truncate] (body_len as u32));
        let crc = crc32c::crc32c(&self.buf[self.header_start..self.pos]);
        if self.buf.len() - self.pos < 4 {
            return Err(Error::ShortBuffer);
        }
        write_u32_at(self.buf, self.pos, crc);
        self.pos = self.pos + 4;
        Ok(self.pos - self.header_start)
    }

    /// Reset encoder for reuse with the same buffer
    pub fn reset(&mut self)
        ensures
            final(self).wf(),
            final(self).buf@ == old(self).buf@,
            final(final(self).buf)@ == final(old(self).buf)@,
            final(self).pos == 0,
            final(self).header_start == 0,
            final(self).body_start == 0,
    {
        self.pos = 0;
        self.header_start = 0;
        self.body_start = 0;
    }

    /// Get a slice of the encoded data
    pub fn as_slice(&self) -> (s: &[u8])
        requires
            self.wf(),
        ensures
            s@ == self.contents().subrange(self.header_start as int, self.pos as int),
    {
        &self.buf[self.header_start..self.pos]
    }
}

} // verus!
