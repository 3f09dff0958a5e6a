//! Quote message (type 2)
//!
//! Fixed fields: ts_ns (u64), bid (i64), ask (i64), level (u8).
//! Optional fields: symbol (varbytes).

pub mod fields;

use super::msg_types;
use super::trade::{trade_body, trade_decode_spec, trade_frame, trade_header};
use super::{
    holds_prefix, lemma_read_opt_varbytes, lemma_read_varbytes, lemma_write_outcomes, opt_varbytes, opt_view,
    read_opt_varbytes, varbytes,
};
use crate::crc32c::crc32c_spec;
use crate::decoder::{
    frame_body, frame_check, lemma_frame_body_corruption, lemma_frame_roundtrip,
    lemma_reads_extend, read_u16, read_u64, read_u8, read_varbytes, FrameDecoder,
};
use crate::encoder::FrameEncoder;
use crate::varint::varint_bytes;
use crate::error::{Error, Result};
use crate::frame::{
    frame_bytes, frame_unsealed, header_bytes, header_decode, header_valid, lemma_finish_frame,
    lemma_header_at_bytes, lemma_header_roundtrip, with_len, FrameFlags, FrameHeader,
};
use crate::wire::{
    le16, le32, le64, lemma_le16_roundtrip, lemma_le32_roundtrip, lemma_le64_roundtrip,
    lemma_read_in_middle, lemma_splice_append, splice, u16_at, u32_at, u64_at,
};
use crate::{FRAME_MAGIC, MAX_FRAME_SIZE};
use vstd::prelude::*;

verus! {

/// The header a quote frame is begun with: the presence-bitmap flag is set
/// exactly when the symbol is present.
pub open spec fn quote_header(seq: u32, has_symbol: bool) -> FrameHeader {
    FrameHeader {
        magic: FRAME_MAGIC,
        ver: 1,
        flags: if has_symbol {
            1u8
        } else {
            0u8
        },
        msg_type: msg_types::QUOTE_V1,
        seq,
        len: 0,
    }
}

/// The body of a quote: the fixed fields little-endian, then, when the
/// symbol is present, the bitmap with bit 0 set and the symbol.
pub open spec fn quote_body(ts_ns: u64, bid: i64, ask: i64, level: u8, symbol: Option<Seq<u8>>) -> Seq<
    u8,
> {
    le64(ts_ns) + le64(bid as u64) + le64(ask as u64) + seq![level] + if symbol is Some {
        le16(1u16 << 0u16) + opt_varbytes(symbol)
    } else {
        Seq::empty()
    }
}

/// The complete frame of a quote.
pub open spec fn quote_frame(
    seq: u32,
    ts_ns: u64,
    bid: i64,
    ask: i64,
    level: u8,
    symbol: Option<Seq<u8>>,
) -> Seq<u8> {
    frame_bytes(quote_header(seq, symbol is Some), quote_body(ts_ns, bid, ask, level, symbol))
}

/// Encode a Quote v1 message
///
/// Fixed fields: ts_ns (u64), bid (i64), ask (i64), level (u8)
/// Optional fields: symbol (varbytes)
///
/// Succeeds exactly when the frame fits in `buf`, and then leaves it at the
/// start of `buf` and returns its length. When it does not fit, `buf`
/// holds the part of the header and body that was written before space
/// ran out, or header and body complete but for the checksum.
#[verifier::rlimit(80)]
#[verifier::spinoff_prover]
pub fn encode(
    buf: &mut [u8],
    seq: u32,
    ts_ns: u64,
    bid: i64,
    ask: i64,
    level: u8,
    symbol: Option<&[u8]>,
) -> (r: Result<usize>)
    ensures
        final(buf)@.len() == old(buf)@.len(),
        ({
            let h = quote_header(seq, symbol is Some);
            let body = quote_body(ts_ns, bid, ask, level, opt_view(symbol));
            let frame = frame_bytes(h, body);
            if frame.len() <= old(buf)@.len() {
                &&& r == Ok::<usize, Error>(frame.len() as usize)
                &&& final(buf)@ == splice(old(buf)@, 0, frame)
            } else {
                &&& r == Err::<usize, Error>(Error::ShortBuffer)
                &&& holds_prefix(final(buf)@, old(buf)@, header_bytes(h) + body) || final(buf)@
                    == splice(old(buf)@, 0, frame_unsealed(h, body))
            }
        }),
{
    let ghost b0 = buf@;
    let ghost h = quote_header(seq, symbol.is_some());
    let ghost hb = header_bytes(h);
    let ghost a = le64(ts_ns);
    let ghost b = le64(bid as u64);
    let ghost c = le64(ask as u64);
    let ghost l = seq![level];
    let ghost d = le16(1u16 << 0u16);
    let ghost s = opt_varbytes(opt_view(symbol));
    let ghost t = if symbol.is_some() {
        d + s
    } else {
        Seq::<u8>::empty()
    };
    let ghost body = quote_body(ts_ns, bid, ask, level, opt_view(symbol));
    let ghost frame = frame_bytes(h, body);
    assert(body =~= a + b + c + l + t);
    let mut encoder = FrameEncoder::new(buf);
    let mut header = FrameHeader::new(msg_types::QUOTE_V1, seq, 0);
    if symbol.is_some() {
        header.set_flag(FrameFlags::PRESENCE_BITMAP);
        assert(0u8 | 1u8 == 1u8) by (bit_vector);
    }
    assert(header == h);
    assert(frame.len() == 16 + body.len() + 4);
    assert(encoder.buf@.len() < 16 ==> frame.len() > b0.len());
    proof {
        assert(splice(b0, 0, (hb + body).take(0)) =~= b0);
    }
    encoder.begin(&header)?;
    let ghost acc = Seq::<u8>::empty();
    assert(hb + acc =~= hb);
    proof {
        assert(body =~= acc + a + (b + c + l + t));
        lemma_write_outcomes(b0, hb, acc, a, b + c + l + t, body);
    }
    assert(!encoder.fits(8) ==> frame.len() > b0.len());
    encoder.put_u64(ts_ns)?;
    proof {
        lemma_splice_append(b0, 0, hb + acc, a);
        assert(hb + acc + a =~= hb + (acc + a));
        acc = acc + a;
        assert(body =~= acc + b + (c + l + t));
        lemma_write_outcomes(b0, hb, acc, b, c + l + t, body);
    }
    assert(!encoder.fits(8) ==> frame.len() > b0.len());
    encoder.put_i64(bid)?;
    proof {
        lemma_splice_append(b0, 0, hb + acc, b);
        assert(hb + acc + b =~= hb + (acc + b));
        acc = acc + b;
        assert(body =~= acc + c + (l + t));
        lemma_write_outcomes(b0, hb, acc, c, l + t, body);
    }
    assert(!encoder.fits(8) ==> frame.len() > b0.len());
    encoder.put_i64(ask)?;
    proof {
        lemma_splice_append(b0, 0, hb + acc, c);
        assert(hb + acc + c =~= hb + (acc + c));
        acc = acc + c;
        assert(body =~= acc + l + t);
        lemma_write_outcomes(b0, hb, acc, l, t, body);
    }
    assert(!encoder.fits(1) ==> frame.len() > b0.len());
    encoder.put_u8(level)?;
    proof {
        lemma_splice_append(b0, 0, hb + acc, l);
        assert(hb + acc + l =~= hb + (acc + l));
        acc = acc + l;
    }
    if let Some(symbol_bytes) = symbol {
        let bitmap = 1u16 << (fields::SYMBOL as u16);
        proof {
            assert(body =~= acc + d + s);
            lemma_write_outcomes(b0, hb, acc, d, s, body);
        }
        assert(!encoder.fits(2) ==> frame.len() > b0.len());
        encoder.put_bitmap(bitmap)?;
        proof {
            lemma_splice_append(b0, 0, hb + acc, d);
            assert(hb + acc + d =~= hb + (acc + d));
            acc = acc + d;
            let p = varint_bytes((symbol_bytes@.len() as u32) as nat);
            assert(body =~= acc + p + symbol_bytes@);
            lemma_write_outcomes(b0, hb, acc, p, symbol_bytes@, body);
        }
        assert(!encoder.fits(varbytes(symbol_bytes@).len()) ==> frame.len() > b0.len());
        encoder.put_varbytes(symbol_bytes)?;
        proof {
            lemma_splice_append(b0, 0, hb + acc, s);
            assert(hb + acc + s =~= hb + (acc + s));
            acc = acc + s;
        }
    }
    assert(acc =~= body);
    assert(!encoder.fits(4) ==> frame.len() > b0.len());
    proof {
        lemma_finish_frame(b0, 0, h, body);
    }
    encoder.finish_crc32c()
}

/// The quote fields read from `body` of a frame with header flags `flags`:
/// the fixed fields, then, when the presence-bitmap flag is set, the bitmap
/// and the symbol when its bit is set.
pub open spec fn quote_fields(flags: u8, body: Seq<u8>) -> Result<
    (u64, i64, i64, u8, Option<Seq<u8>>),
> {
    match read_u64(body, 0) {
        Err(e) => Err(e),
        Ok((ts_ns, p1)) => match read_u64(body, p1) {
            Err(e) => Err(e),
            Ok((bid, p2)) => match read_u64(body, p2) {
                Err(e) => Err(e),
                Ok((ask, p3)) => match read_u8(body, p3) {
                    Err(e) => Err(e),
                    Ok((level, p4)) => if flags & FrameFlags::PRESENCE_BITMAP == 0 {
                        Ok((ts_ns, bid as i64, ask as i64, level, None))
                    } else {
                        match read_u16(body, p4) {
                            Err(e) => Err(e),
                            Ok((bitmap, p5)) => match read_opt_varbytes(
                                body,
                                p5,
                                bitmap & (1u16 << 0u16) != 0,
                            ) {
                                Err(e) => Err(e),
                                Ok((symbol, _)) => Ok(
                                    (ts_ns, bid as i64, ask as i64, level, symbol),
                                ),
                            },
                        }
                    },
                },
            },
        },
    }
}

/// What decoding `buf` as a quote gives: header errors first, then a wrong
/// message type, then what checksum verification reports, then the body
/// and its fields.
pub open spec fn quote_decode_spec(buf: Seq<u8>) -> Result<
    (FrameHeader, u64, i64, i64, u8, Option<Seq<u8>>),
> {
    match header_decode(buf) {
        Err(e) => Err(e),
        Ok(h) => if h.msg_type != msg_types::QUOTE_V1 {
            Err(Error::UnsupportedMsgType)
        } else {
            match frame_check(buf) {
                Err(e) => Err(e),
                Ok(_) => match frame_body(buf) {
                    Err(e) => Err(e),
                    Ok(body) => match quote_fields(h.flags, body) {
                        Err(e) => Err(e),
                        Ok((ts_ns, bid, ask, level, symbol)) => Ok(
                            (h, ts_ns, bid, ask, level, symbol),
                        ),
                    },
                },
            }
        },
    }
}

/// Decode a Quote v1 message
///
/// Returns (header, ts_ns, bid, ask, level, symbol)
pub fn decode(buf: &[u8]) -> (r: Result<(FrameHeader, u64, i64, i64, u8, Option<&[u8]>)>)
    ensures
        match quote_decode_spec(buf@) {
            Ok((h, ts_ns, bid, ask, level, symbol)) => r matches Ok((h2, t2, b2, a2, l2, s2)) && h2
                == h && t2 == ts_ns && b2 == bid && a2 == ask && l2 == level && opt_view(s2)
                == symbol,
            Err(e) => r matches Err(e2) && e2 == e,
        },
{
    let decoder = FrameDecoder::new(buf);
    let header = decoder.header()?;
    if header.msg_type != msg_types::QUOTE_V1 {
        return Err(Error::UnsupportedMsgType);
    }
    decoder.verify_crc32c()?;
    let mut body = decoder.body()?;
    let ts_ns = body.get_u64()?;
    let bid = body.get_i64()?;
    let ask = body.get_i64()?;
    let level = body.get_u8()?;
    let mut symbol = None;
    if header.has_flag(FrameFlags::PRESENCE_BITMAP) {
        let bitmap = body.get_bitmap()?;
        if bitmap & (1u16 << (fields::SYMBOL as u16)) != 0 {
            symbol = Some(body.get_varbytes()?);
        }
    }
    Ok((header, ts_ns, bid, ask, level, symbol))
}

/// Reading the fields of a quote body gives back what was written.
proof fn lemma_quote_fields(ts_ns: u64, bid: i64, ask: i64, level: u8, symbol: Option<Seq<u8>>)
    requires
        symbol matches Some(s) ==> s.len() <= u32::MAX,
    ensures
        quote_fields(
            quote_header(0, symbol is Some).flags,
            quote_body(ts_ns, bid, ask, level, symbol),
        ) == Ok::<(u64, i64, i64, u8, Option<Seq<u8>>), Error>((ts_ns, bid, ask, level, symbol)),
{
    let body = quote_body(ts_ns, bid, ask, level, symbol);
    let empty = Seq::<u8>::empty();
    let a = le64(ts_ns);
    let b = le64(bid as u64);
    let c = le64(ask as u64);
    let d = seq![level];
    let tail = if symbol is Some {
        le16(1u16 << 0u16) + opt_varbytes(symbol)
    } else {
        empty
    };
    assert(0u8 & 1u8 == 0 && 1u8 & 1u8 != 0) by (bit_vector);
    assert(body =~= empty + a + (b + c + d + tail));
    lemma_read_in_middle(empty, a, b + c + d + tail);
    lemma_le64_roundtrip(ts_ns);
    assert(body =~= a + b + (c + d + tail));
    lemma_read_in_middle(a, b, c + d + tail);
    lemma_le64_roundtrip(bid as u64);
    assert((bid as u64) as i64 == bid) by (bit_vector);
    assert(body =~= (a + b) + c + (d + tail));
    lemma_read_in_middle(a + b, c, d + tail);
    lemma_le64_roundtrip(ask as u64);
    assert((ask as u64) as i64 == ask) by (bit_vector);
    assert(body[24] == level);
    if symbol is Some {
        lemma_quote_optional(a + b + c + d, symbol);
    }
}

/// Reading the bitmap and symbol of a quote body gives back what was
/// written.
proof fn lemma_quote_optional(pre: Seq<u8>, symbol: Option<Seq<u8>>)
    requires
        symbol matches Some(s) && s.len() <= u32::MAX,
    ensures
        ({
            let body = pre + (le16(1u16 << 0u16) + opt_varbytes(symbol));
            &&& read_u16(body, pre.len() as int) == Ok::<(u16, int), Error>(
                (1u16 << 0u16, pre.len() + 2int),
            )
            &&& (1u16 << 0u16) & (1u16 << 0u16) != 0
            &&& read_opt_varbytes(body, pre.len() + 2int, true) matches Ok((s, _)) && s == symbol
        }),
{
    let empty = Seq::<u8>::empty();
    let e = le16(1u16 << 0u16);
    let body = pre + (e + opt_varbytes(symbol));
    assert(body =~= pre + e + opt_varbytes(symbol));
    lemma_read_in_middle(pre, e, opt_varbytes(symbol));
    lemma_le16_roundtrip(1u16 << 0u16);
    assert((1u16 << 0u16) & (1u16 << 0u16) != 0) by (bit_vector);
    assert(body =~= (pre + e) + opt_varbytes(symbol) + empty);
    lemma_read_opt_varbytes(pre + e, symbol, empty);
}

/// Decoding quote fields ignores bytes that follow the fields it knows,
/// such as optional fields that a later version appends after the symbol.
pub proof fn lemma_quote_fields_extend(flags: u8, body: Seq<u8>, extra: Seq<u8>)
    requires
        quote_fields(flags, body) is Ok,
    ensures
        quote_fields(flags, body + extra) == quote_fields(flags, body),
{
    lemma_reads_extend(body, extra, 0);
    let (_, p1) = read_u64(body, 0)->Ok_0;
    lemma_reads_extend(body, extra, p1);
    let (_, p2) = read_u64(body, p1)->Ok_0;
    lemma_reads_extend(body, extra, p2);
    let (_, p3) = read_u64(body, p2)->Ok_0;
    lemma_reads_extend(body, extra, p3);
    let (_, p4) = read_u8(body, p3)->Ok_0;
    if flags & FrameFlags::PRESENCE_BITMAP != 0 {
        lemma_reads_extend(body, extra, p4);
        let (_, p5) = read_u16(body, p4)->Ok_0;
        lemma_reads_extend(body, extra, p5);
    }
}

/// A frame around a quote body decodes as a quote to its header and the
/// fields that the body reads as.
proof fn lemma_quote_frame_decode(h0: FrameHeader, body: Seq<u8>, rest: Seq<u8>)
    requires
        h0.magic == FRAME_MAGIC,
        h0.ver == 1,
        h0.flags & 0xF8u8 == 0,
        h0.msg_type == msg_types::QUOTE_V1,
        body.len() + 20 <= MAX_FRAME_SIZE,
        quote_fields(h0.flags, body) is Ok,
    ensures
        quote_decode_spec(frame_bytes(h0, body) + rest) == Ok::<
            (FrameHeader, u64, i64, i64, u8, Option<Seq<u8>>),
            Error,
        >(
            ({
                let (t, b, a, l, s) = quote_fields(h0.flags, body)->Ok_0;
                (with_len(h0, body.len() as u32), t, b, a, l, s)
            }),
        ),
{
    lemma_frame_roundtrip(h0, body, rest);
}

/// Decoding an encoded quote gives back its fields, and the header it was
/// begun with carrying the body's length, whatever follows the frame. This
/// holds of every quote whose frame stays within `MAX_FRAME_SIZE`.
pub proof fn lemma_quote_roundtrip(
    seq: u32,
    ts_ns: u64,
    bid: i64,
    ask: i64,
    level: u8,
    symbol: Option<Seq<u8>>,
    rest: Seq<u8>,
)
    requires
        quote_body(ts_ns, bid, ask, level, symbol).len() + 20 <= MAX_FRAME_SIZE,
    ensures
        ({
            let body = quote_body(ts_ns, bid, ask, level, symbol);
            let h = with_len(quote_header(seq, symbol is Some), body.len() as u32);
            quote_decode_spec(quote_frame(seq, ts_ns, bid, ask, level, symbol) + rest) == Ok::<
                (FrameHeader, u64, i64, i64, u8, Option<Seq<u8>>),
                Error,
            >((h, ts_ns, bid, ask, level, symbol))
        }),
{
    let body = quote_body(ts_ns, bid, ask, level, symbol);
    assert(body.len() >= opt_varbytes(symbol).len());
    lemma_quote_fields(ts_ns, bid, ask, level, symbol);
    assert(0u8 & 0xF8u8 == 0 && 1u8 & 0xF8u8 == 0) by (bit_vector);
    let h0 = quote_header(seq, symbol is Some);
    lemma_quote_frame_decode(h0, body, rest);
    let x = quote_fields(h0.flags, body)->Ok_0;
    assert(x == (ts_ns, bid, ask, level, symbol));
    assert(quote_frame(seq, ts_ns, bid, ask, level, symbol) == frame_bytes(h0, body));
}


/// The wire layout of an encoded quote, stated byte by byte: the header
/// (magic, version 1, presence flag exactly when the symbol is present,
/// message type 2, the sequence number, the body length), then at offset 16
/// `ts_ns`, at 24 `bid`, at 32 `ask` (little-endian), at 40 `level`; with a
/// symbol, the bitmap 1 at 41 and the length-prefixed symbol at 43; and
/// last the CRC32C of everything before it.
pub proof fn lemma_quote_layout(
    seq: u32,
    ts_ns: u64,
    bid: i64,
    ask: i64,
    level: u8,
    symbol: Option<Seq<u8>>,
)
    requires
        symbol matches Some(s) ==> s.len() <= u32::MAX,
    ensures
        ({
            let f = quote_frame(seq, ts_ns, bid, ask, level, symbol);
            let n = f.len() as int;
            &&& u16_at(f, 0) == FRAME_MAGIC
            &&& f[2] == 1
            &&& f[3] == (if symbol is Some {
                1u8
            } else {
                0u8
            })
            &&& u16_at(f, 4) == 2
            &&& u32_at(f, 6) == seq
            &&& u32_at(f, 10) == (n - 20) as u32
            &&& u64_at(f, 16) == ts_ns
            &&& u64_at(f, 24) == bid as u64
            &&& u64_at(f, 32) == ask as u64
            &&& f[40] == level
            &&& symbol is None ==> n == 45
            &&& symbol matches Some(sym) ==> u16_at(f, 41) == 1 && read_varbytes(f, 43) == Ok::<
                (Seq<u8>, int),
                Error,
            >((sym, n - 4))
            &&& u32_at(f, n - 4) == crc32c_spec(f.take(n - 4))
        }),
{
    let h = quote_header(seq, symbol is Some);
    let body = quote_body(ts_ns, bid, ask, level, symbol);
    let h2 = with_len(h, body.len() as u32);
    let hb = header_bytes(h2);
    let c = crc32c_spec(hb + body);
    let f = quote_frame(seq, ts_ns, bid, ask, level, symbol);
    let a = le64(ts_ns);
    let b = le64(bid as u64);
    let d = le64(ask as u64);
    let l = seq![level];
    let e = le16(1u16 << 0u16);
    let t = if symbol is Some {
        e + opt_varbytes(symbol)
    } else {
        Seq::<u8>::empty()
    };
    let crc = le32(c);
    assert(f =~= hb + (body + crc));
    lemma_header_at_bytes(h2, body + crc);
    assert(body =~= a + b + d + l + t);
    assert(f =~= hb + a + (b + d + l + t + crc));
    lemma_read_in_middle(hb, a, b + d + l + t + crc);
    lemma_le64_roundtrip(ts_ns);
    assert(f =~= (hb + a) + b + (d + l + t + crc));
    lemma_read_in_middle(hb + a, b, d + l + t + crc);
    lemma_le64_roundtrip(bid as u64);
    assert(f =~= (hb + a + b) + d + (l + t + crc));
    lemma_read_in_middle(hb + a + b, d, l + t + crc);
    lemma_le64_roundtrip(ask as u64);
    assert(f[40] == l[0]);
    assert(f =~= (hb + body) + crc + Seq::<u8>::empty());
    lemma_read_in_middle(hb + body, crc, Seq::<u8>::empty());
    lemma_le32_roundtrip(c);
    assert(f.take(f.len() - 4) =~= hb + body);
    if let Some(sym) = symbol {
        let pre = hb + a + b + d + l;
        assert(f =~= pre + e + (varbytes(sym) + crc));
        lemma_read_in_middle(pre, e, varbytes(sym) + crc);
        lemma_le16_roundtrip(1u16 << 0u16);
        assert((1u16 << 0u16) == 1u16) by (bit_vector);
        assert(f =~= (pre + e) + varbytes(sym) + crc);
        lemma_read_varbytes(pre + e, sym, crc);
    }
}

/// Quote decoding accepts only quote frames whose checksum verifies: a
/// frame whose header decodes with another message type is refused with
/// `UnsupportedMsgType`, and a successful decode returns a header that
/// decodes from `buf` with message type 2, from a frame that passes
/// checksum verification.
pub proof fn lemma_quote_decode_checks(buf: Seq<u8>)
    ensures
        header_decode(buf) matches Ok(h) && h.msg_type != 2 ==> quote_decode_spec(buf) == Err::<
            (FrameHeader, u64, i64, i64, u8, Option<Seq<u8>>),
            Error,
        >(Error::UnsupportedMsgType),
        quote_decode_spec(buf) matches Ok((h, _, _, _, _, _)) ==> {
            &&& h.msg_type == 2
            &&& header_decode(buf) == Ok::<FrameHeader, Error>(h)
            &&& frame_check(buf) == Ok::<(), Error>(())
        },
{
}

/// Changing any one byte of the body or checksum of an encoded quote makes
/// quote decoding report a checksum mismatch, whatever follows the frame.
pub proof fn lemma_quote_corruption_detected(
    seq: u32,
    ts_ns: u64,
    bid: i64,
    ask: i64,
    level: u8,
    symbol: Option<Seq<u8>>,
    rest: Seq<u8>,
    i: int,
    v: u8,
)
    requires
        quote_body(ts_ns, bid, ask, level, symbol).len() + 20 <= MAX_FRAME_SIZE,
        16 <= i < quote_frame(seq, ts_ns, bid, ask, level, symbol).len(),
        v != quote_frame(seq, ts_ns, bid, ask, level, symbol)[i],
    ensures
        quote_decode_spec(quote_frame(seq, ts_ns, bid, ask, level, symbol).update(i, v) + rest)
            == Err::<(FrameHeader, u64, i64, i64, u8, Option<Seq<u8>>), Error>(
            Error::CrcMismatch,
        ),
{
    let h = quote_header(seq, symbol is Some);
    let body = quote_body(ts_ns, bid, ask, level, symbol);
    let f = frame_bytes(h, body);
    assert(quote_frame(seq, ts_ns, bid, ask, level, symbol) == f);
    assert(f.len() == 16 + body.len() + 4);
    let h2 = with_len(h, body.len() as u32);
    assert(h2.flags & 0xF8u8 == 0) by {
        assert(0u8 & 0xF8u8 == 0 && 1u8 & 0xF8u8 == 0) by (bit_vector);
    }
    assert(header_valid(h2));
    let g = f.update(i, v) + rest;
    lemma_frame_body_corruption(h, body, rest, i, v);
    assert(header_decode(g) == Ok::<FrameHeader, Error>(h2));
    assert(h2.msg_type == 2);
    lemma_quote_decode_mismatch(g);
    assert(quote_decode_spec(g) == Err::<(FrameHeader, u64, i64, i64, u8, Option<Seq<u8>>), Error>(
        Error::CrcMismatch,
    ));
    assert(quote_frame(seq, ts_ns, bid, ask, level, symbol).update(i, v) + rest == g);
}

/// A quote frame whose header decodes but whose checksum does not match is
/// refused with `CrcMismatch`.
proof fn lemma_quote_decode_mismatch(buf: Seq<u8>)
    requires
        header_decode(buf) matches Ok(h) && h.msg_type == 2,
        frame_check(buf) == Err::<(), Error>(Error::CrcMismatch),
    ensures
        quote_decode_spec(buf) == Err::<(FrameHeader, u64, i64, i64, u8, Option<Seq<u8>>), Error>(
            Error::CrcMismatch,
        ),
{
}

/// The two message types are never read as one another: an encoded quote
/// handed to trade decoding, and an encoded trade handed to quote decoding,
/// are refused with `UnsupportedMsgType`, whatever bytes follow the frame.
pub proof fn lemma_message_types_distinct(
    seq: u32,
    ts_ns: u64,
    bid: i64,
    ask: i64,
    level: u8,
    symbol: Option<Seq<u8>>,
    price: i64,
    qty: u32,
    trade_symbol: Option<Seq<u8>>,
    note: Option<Seq<u8>>,
    rest: Seq<u8>,
)
    requires
        quote_body(ts_ns, bid, ask, level, symbol).len() + 20 <= MAX_FRAME_SIZE,
        trade_body(ts_ns, price, qty, trade_symbol, note).len() + 20 <= MAX_FRAME_SIZE,
    ensures
        trade_decode_spec(quote_frame(seq, ts_ns, bid, ask, level, symbol) + rest) is Err,
        trade_decode_spec(quote_frame(seq, ts_ns, bid, ask, level, symbol) + rest)->Err_0
            == Error::UnsupportedMsgType,
        quote_decode_spec(trade_frame(seq, ts_ns, price, qty, trade_symbol, note) + rest) is Err,
        quote_decode_spec(trade_frame(seq, ts_ns, price, qty, trade_symbol, note) + rest)->Err_0
            == Error::UnsupportedMsgType,
{
    assert(0u8 & 0xF8u8 == 0 && 1u8 & 0xF8u8 == 0) by (bit_vector);
    let qh = quote_header(seq, symbol is Some);
    let qb = quote_body(ts_ns, bid, ask, level, symbol);
    assert(header_valid(with_len(qh, qb.len() as u32)));
    lemma_frame_roundtrip(qh, qb, rest);
    assert(quote_frame(seq, ts_ns, bid, ask, level, symbol) == frame_bytes(qh, qb));
    let th = trade_header(seq, trade_symbol is Some || note is Some);
    let tb = trade_body(ts_ns, price, qty, trade_symbol, note);
    assert(header_valid(with_len(th, tb.len() as u32)));
    lemma_frame_roundtrip(th, tb, rest);
    assert(trade_frame(seq, ts_ns, price, qty, trade_symbol, note) == frame_bytes(th, tb));
}

} // verus!
