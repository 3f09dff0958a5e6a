//! Trade message (type 1)
//!
//! Fixed fields: ts_ns (u64), price (i64), qty (u32).
//! Optional fields: symbol (varbytes), note (varbytes).

pub mod fields;

use super::msg_types;
use super::{
    holds_prefix, lemma_read_opt_bounds, lemma_read_opt_varbytes, lemma_read_varbytes, lemma_write_outcomes, opt_varbytes, opt_view,
    read_opt_varbytes, varbytes,
};
use crate::crc32c::crc32c_spec;
use crate::decoder::{
    frame_body, frame_check, lemma_frame_body_corruption, lemma_frame_roundtrip,
    lemma_reads_extend, read_u16, read_u32, read_u64, read_varbytes, FrameDecoder,
};
use crate::encoder::FrameEncoder;
use crate::varint::varint_bytes;
use crate::error::{Error, Result};
use crate::frame::{
    frame_bytes, frame_unsealed, header_bytes, header_decode, header_valid, lemma_finish_frame,
    lemma_header_at_bytes, with_len, FrameFlags, FrameHeader,
};
use crate::wire::{
    le16, le32, le64, lemma_le16_roundtrip, lemma_le32_roundtrip, lemma_le64_roundtrip,
    lemma_read_in_middle, lemma_splice_append, splice, u16_at, u32_at, u64_at,
};
use crate::{FRAME_MAGIC, MAX_FRAME_SIZE};
use vstd::prelude::*;

verus! {

/// The header a trade frame is begun with: the presence-bitmap flag is set
/// exactly when an optional field is present.
pub open spec fn trade_header(seq: u32, has_optional: bool) -> FrameHeader {
    FrameHeader {
        magic: FRAME_MAGIC,
        ver: 1,
        flags: if has_optional {
            1u8
        } else {
            0u8
        },
        msg_type: msg_types::TRADE_V1,
        seq,
        len: 0,
    }
}

/// The presence bitmap of a trade: bit 0 for the symbol, bit 1 for the
/// note.
pub open spec fn trade_bitmap(has_symbol: bool, has_note: bool) -> u16 {
    (if has_symbol {
        1u16
    } else {
        0u16
    }) | (if has_note {
        2u16
    } else {
        0u16
    })
}

/// The bitmap built field by field is `trade_bitmap`, and its bits tell
/// the fields apart.
pub proof fn lemma_trade_bitmap(has_symbol: bool, has_note: bool)
    ensures
        ({
            let with_symbol = if has_symbol {
                0u16 | (1u16 << 0u16)
            } else {
                0u16
            };
            let with_note = if has_note {
                with_symbol | (1u16 << 1u16)
            } else {
                with_symbol
            };
            with_note == trade_bitmap(has_symbol, has_note)
        }),
        (trade_bitmap(has_symbol, has_note) & (1u16 << 0u16) != 0) == has_symbol,
        (trade_bitmap(has_symbol, has_note) & (1u16 << 1u16) != 0) == has_note,
{
    assert(({
        let with_symbol = if has_symbol {
            0u16 | (1u16 << 0u16)
        } else {
            0u16
        };
        let with_note = if has_note {
            with_symbol | (1u16 << 1u16)
        } else {
            with_symbol
        };
        with_note == ((if has_symbol {
            1u16
        } else {
            0u16
        }) | (if has_note {
            2u16
        } else {
            0u16
        }))
    })) by (bit_vector);
    assert((((if has_symbol {
        1u16
    } else {
        0u16
    }) | (if has_note {
        2u16
    } else {
        0u16
    })) & (1u16 << 0u16) != 0) == has_symbol) by (bit_vector);
    assert((((if has_symbol {
        1u16
    } else {
        0u16
    }) | (if has_note {
        2u16
    } else {
        0u16
    })) & (1u16 << 1u16) != 0) == has_note) by (bit_vector);
}

/// The body of a trade: the fixed fields little-endian, then, when an
/// optional field is present, the bitmap and the present fields.
pub open spec fn trade_body(
    ts_ns: u64,
    price: i64,
    qty: u32,
    symbol: Option<Seq<u8>>,
    note: Option<Seq<u8>>,
) -> Seq<u8> {
    le64(ts_ns) + le64(price as u64) + le32(qty) + if symbol is Some || note is Some {
        le16(trade_bitmap(symbol is Some, note is Some)) + opt_varbytes(symbol) + opt_varbytes(
            note,
        )
    } else {
        Seq::empty()
    }
}

/// The complete frame of a trade.
pub open spec fn trade_frame(
    seq: u32,
    ts_ns: u64,
    price: i64,
    qty: u32,
    symbol: Option<Seq<u8>>,
    note: Option<Seq<u8>>,
) -> Seq<u8> {
    frame_bytes(
        trade_header(seq, symbol is Some || note is Some),
        trade_body(ts_ns, price, qty, symbol, note),
    )
}

/// Writes the bitmap and the present optional fields of a trade after the
/// fixed fields already written at the start of `b0`.
#[verifier::rlimit(40)]
fn put_optional(
    encoder: &mut FrameEncoder,
    symbol: Option<&[u8]>,
    note: Option<&[u8]>,
    Ghost(b0): Ghost<Seq<u8>>,
    Ghost(hb): Ghost<Seq<u8>>,
    Ghost(acc): Ghost<Seq<u8>>,
) -> (r: Result<()>)
    requires
        symbol is Some || note is Some,
        old(encoder).wf(),
        hb.len() == 16,
        old(encoder).buf@.len() == b0.len(),
        old(encoder).buf@ == splice(b0, 0, hb + acc),
        old(encoder).pos == 16 + acc.len(),
        old(encoder).header_start == 0,
        old(encoder).body_start == 16,
    ensures
        final(encoder).wf(),
        final(final(encoder).buf)@ == final(old(encoder).buf)@,
        final(encoder).buf@.len() == b0.len(),
        final(encoder).header_start == 0,
        final(encoder).body_start == 16,
        ({
            let t = le16(trade_bitmap(symbol is Some, note is Some)) + opt_varbytes(
                opt_view(symbol),
            ) + opt_varbytes(opt_view(note));
            &&& r is Ok ==> final(encoder).buf@ == splice(b0, 0, hb + (acc + t))
                && final(encoder).pos == 16 + acc.len() + t.len()
            &&& r is Err ==> r == Err::<(), Error>(Error::ShortBuffer) && 16 + acc.len() + t.len()
                > b0.len() && holds_prefix(final(encoder).buf@, b0, hb + (acc + t))
        }),
{
    let ghost d = le16(trade_bitmap(symbol.is_some(), note.is_some()));
    let ghost s = opt_varbytes(opt_view(symbol));
    let ghost n = opt_varbytes(opt_view(note));
    let ghost body = acc + (d + s + n);
    let ghost acc0 = acc;
    let ghost mut acc = acc;
    let mut bitmap = 0u16;
    if symbol.is_some() {
        bitmap = bitmap | (1u16 << (fields::SYMBOL as u16));
    }
    if note.is_some() {
        bitmap = bitmap | (1u16 << (fields::NOTE as u16));
    }
    proof {
        lemma_trade_bitmap(symbol.is_some(), note.is_some());
        assert(body =~= acc + d + (s + n));
        lemma_write_outcomes(b0, hb, acc, d, s + n, body);
    }
    assert(bitmap == trade_bitmap(symbol.is_some(), note.is_some()));
    encoder.put_bitmap(bitmap)?;
    proof {
        lemma_splice_append(b0, 0, hb + acc, d);
        assert(hb + acc + d =~= hb + (acc + d));
        acc = acc + d;
    }
    if let Some(symbol_bytes) = symbol {
        proof {
            let p = varint_bytes((symbol_bytes@.len() as u32) as nat);
            assert(body =~= acc + p + (symbol_bytes@ + n));
            lemma_write_outcomes(b0, hb, acc, p, symbol_bytes@ + n, body);
        }
        encoder.put_varbytes(symbol_bytes)?;
        proof {
            lemma_splice_append(b0, 0, hb + acc, s);
            assert(hb + acc + s =~= hb + (acc + s));
            acc = acc + s;
        }
    }
    assert(acc =~= acc0 + d + s);
    if let Some(note_bytes) = note {
        proof {
            let p = varint_bytes((note_bytes@.len() as u32) as nat);
            assert(body =~= acc + p + note_bytes@);
            lemma_write_outcomes(b0, hb, acc, p, note_bytes@, body);
        }
        encoder.put_varbytes(note_bytes)?;
        proof {
            lemma_splice_append(b0, 0, hb + acc, n);
            assert(hb + acc + n =~= hb + (acc + n));
            acc = acc + n;
        }
    }
    assert(acc =~= body);
    Ok(())
}

/// Encode a Trade v1 message
///
/// Fixed fields: ts_ns (u64), price (i64), qty (u32)
/// Optional fields: symbol (varbytes), note (varbytes)
///
/// Succeeds exactly when the frame fits in `buf`, and then leaves it at the
/// start of `buf` and returns its length. When it does not fit, `buf`
/// holds the part of the header and body that was written before space
/// ran out, or header and body complete but for the checksum.
#[verifier::rlimit(80)]
#[verifier::spinoff_prover]
pub fn encode(
    buf: &mut [u8],
    seq: u32,
    ts_ns: u64,
    price: i64,
    qty: u32,
    symbol: Option<&[u8]>,
    note: Option<&[u8]>,
) -> (r: Result<usize>)
    ensures
        final(buf)@.len() == old(buf)@.len(),
        ({
            let h = trade_header(seq, symbol is Some || note is Some);
            let body = trade_body(ts_ns, price, qty, opt_view(symbol), opt_view(note));
            let frame = frame_bytes(h, body);
            if frame.len() <= old(buf)@.len() {
                &&& r == Ok::<usize, Error>(frame.len() as usize)
                &&& final(buf)@ == splice(old(buf)@, 0, frame)
            } else {
                &&& r == Err::<usize, Error>(Error::ShortBuffer)
                &&& holds_prefix(final(buf)@, old(buf)@, header_bytes(h) + body) || final(buf)@
                    == splice(old(buf)@, 0, frame_unsealed(h, body))
            }
        }),
{
    let ghost b0 = buf@;
    let ghost has = symbol.is_some() || note.is_some();
    let ghost h = trade_header(seq, has);
    let ghost hb = header_bytes(h);
    let ghost a = le64(ts_ns);
    let ghost b = le64(price as u64);
    let ghost c = le32(qty);
    let ghost d = le16(trade_bitmap(symbol.is_some(), note.is_some()));
    let ghost s = opt_varbytes(opt_view(symbol));
    let ghost n = opt_varbytes(opt_view(note));
    let ghost t = if has {
        d + s + n
    } else {
        Seq::<u8>::empty()
    };
    let ghost body = trade_body(ts_ns, price, qty, opt_view(symbol), opt_view(note));
    let ghost frame = frame_bytes(h, body);
    assert(body =~= a + b + c + t);
    let mut encoder = FrameEncoder::new(buf);
    let mut header = FrameHeader::new(msg_types::TRADE_V1, seq, 0);
    if symbol.is_some() || note.is_some() {
        header.set_flag(FrameFlags::PRESENCE_BITMAP);
        assert(0u8 | 1u8 == 1u8) by (bit_vector);
    }
    assert(header == h);
    assert(frame.len() == 16 + body.len() + 4);
    assert(encoder.buf@.len() < 16 ==> frame.len() > b0.len());
    proof {
        assert(splice(b0, 0, (hb + body).take(0)) =~= b0);
    }
    encoder.begin(&header)?;
    let ghost acc = Seq::<u8>::empty();
    assert(hb + acc =~= hb);

    proof {
        assert(body =~= acc + a + (b + c + t));
        lemma_write_outcomes(b0, hb, acc, a, b + c + t, body);
    }
    assert(!encoder.fits(8) ==> frame.len() > b0.len());
    encoder.put_u64(ts_ns)?;
    proof {
        lemma_splice_append(b0, 0, hb + acc, a);
        assert(hb + acc + a =~= hb + (acc + a));
        acc = acc + a;
        assert(body =~= acc + b + (c + t));
        lemma_write_outcomes(b0, hb, acc, b, c + t, body);
    }
    assert(!encoder.fits(8) ==> frame.len() > b0.len());
    encoder.put_i64(price)?;
    proof {
        lemma_splice_append(b0, 0, hb + acc, b);
        assert(hb + acc + b =~= hb + (acc + b));
        acc = acc + b;
        assert(body =~= acc + c + t);
        lemma_write_outcomes(b0, hb, acc, c, t, body);
    }
    assert(!encoder.fits(4) ==> frame.len() > b0.len());
    encoder.put_u32(qty)?;
    proof {
        lemma_splice_append(b0, 0, hb + acc, c);
        assert(hb + acc + c =~= hb + (acc + c));
        acc = acc + c;
    }
    if symbol.is_some() || note.is_some() {
        assert(body =~= acc + t);
        put_optional(&mut encoder, symbol, note, Ghost(b0), Ghost(hb), Ghost(acc))?;
        proof {
            acc = acc + t;
        }
    }
    assert(acc =~= body);
    assert(!encoder.fits(4) ==> frame.len() > b0.len());
    proof {
        lemma_finish_frame(b0, 0, h, body);
    }
    encoder.finish_crc32c()
}

/// The trade fields read from `body` of a frame with header flags `flags`:
/// the fixed fields, then, when the presence-bitmap flag is set, the bitmap
/// and the fields whose bits are set.
pub open spec fn trade_fields(flags: u8, body: Seq<u8>) -> Result<
    (u64, i64, u32, Option<Seq<u8>>, Option<Seq<u8>>),
> {
    match read_u64(body, 0) {
        Err(e) => Err(e),
        Ok((ts_ns, p1)) => match read_u64(body, p1) {
            Err(e) => Err(e),
            Ok((price, p2)) => match read_u32(body, p2) {
                Err(e) => Err(e),
                Ok((qty, p3)) => if flags & FrameFlags::PRESENCE_BITMAP == 0 {
                    Ok((ts_ns, price as i64, qty, None, None))
                } else {
                    match read_u16(body, p3) {
                        Err(e) => Err(e),
                        Ok((bitmap, p4)) => match read_opt_varbytes(
                            body,
                            p4,
                            bitmap & (1u16 << 0u16) != 0,
                        ) {
                            Err(e) => Err(e),
                            Ok((symbol, p5)) => match read_opt_varbytes(
                                body,
                                p5,
                                bitmap & (1u16 << 1u16) != 0,
                            ) {
                                Err(e) => Err(e),
                                Ok((note, _)) => Ok((ts_ns, price as i64, qty, symbol, note)),
                            },
                        },
                    }
                },
            },
        },
    }
}

/// What decoding `buf` as a trade gives: header errors first, then a wrong
/// message type, then what checksum verification reports, then the body
/// and its fields.
pub open spec fn trade_decode_spec(buf: Seq<u8>) -> Result<
    (FrameHeader, u64, i64, u32, Option<Seq<u8>>, Option<Seq<u8>>),
> {
    match header_decode(buf) {
        Err(e) => Err(e),
        Ok(h) => if h.msg_type != msg_types::TRADE_V1 {
            Err(Error::UnsupportedMsgType)
        } else {
            match frame_check(buf) {
                Err(e) => Err(e),
                Ok(_) => match frame_body(buf) {
                    Err(e) => Err(e),
                    Ok(body) => match trade_fields(h.flags, body) {
                        Err(e) => Err(e),
                        Ok((ts_ns, price, qty, symbol, note)) => Ok(
                            (h, ts_ns, price, qty, symbol, note),
                        ),
                    },
                },
            }
        },
    }
}

/// Decode a Trade v1 message
///
/// Returns (header, ts_ns, price, qty, symbol, note)
pub fn decode(buf: &[u8]) -> (r: Result<
    (FrameHeader, u64, i64, u32, Option<&[u8]>, Option<&[u8]>),
>)
    ensures
        match trade_decode_spec(buf@) {
            Ok((h, ts_ns, price, qty, symbol, note)) => r matches Ok((h2, t2, p2, q2, s2, n2)) && h2
                == h && t2 == ts_ns && p2 == price && q2 == qty && opt_view(s2) == symbol
                && opt_view(n2) == note,
            Err(e) => r matches Err(e2) && e2 == e,
        },
{
    let decoder = FrameDecoder::new(buf);
    let header = decoder.header()?;
    if header.msg_type != msg_types::TRADE_V1 {
        return Err(Error::UnsupportedMsgType);
    }
    decoder.verify_crc32c()?;
    let mut body = decoder.body()?;
    let ts_ns = body.get_u64()?;
    let price = body.get_i64()?;
    let qty = body.get_u32()?;
    let mut symbol = None;
    let mut note = None;
    if header.has_flag(FrameFlags::PRESENCE_BITMAP) {
        let bitmap = body.get_bitmap()?;
        if bitmap & (1u16 << (fields::SYMBOL as u16)) != 0 {
            symbol = Some(body.get_varbytes()?);
        }
        if bitmap & (1u16 << (fields::NOTE as u16)) != 0 {
            note = Some(body.get_varbytes()?);
        }
    }
    Ok((header, ts_ns, price, qty, symbol, note))
}

/// Reading the fields of a trade body gives back what was written.
proof fn lemma_trade_fields(
    ts_ns: u64,
    price: i64,
    qty: u32,
    symbol: Option<Seq<u8>>,
    note: Option<Seq<u8>>,
)
    requires
        symbol matches Some(s) ==> s.len() <= u32::MAX,
        note matches Some(n) ==> n.len() <= u32::MAX,
    ensures
        trade_fields(
            trade_header(0, symbol is Some || note is Some).flags,
            trade_body(ts_ns, price, qty, symbol, note),
        ) == Ok::<(u64, i64, u32, Option<Seq<u8>>, Option<Seq<u8>>), Error>(
            (ts_ns, price, qty, symbol, note),
        ),
{
    let has = symbol is Some || note is Some;
    let body = trade_body(ts_ns, price, qty, symbol, note);
    let empty = Seq::<u8>::empty();
    let a = le64(ts_ns);
    let b = le64(price as u64);
    let c = le32(qty);
    let tail = if has {
        le16(trade_bitmap(symbol is Some, note is Some)) + opt_varbytes(symbol) + opt_varbytes(note)
    } else {
        empty
    };
    assert(0u8 & 1u8 == 0 && 1u8 & 1u8 != 0) by (bit_vector);
    assert(body =~= empty + a + (b + c + tail));
    lemma_read_in_middle(empty, a, b + c + tail);
    lemma_le64_roundtrip(ts_ns);
    assert(body =~= a + b + (c + tail));
    lemma_read_in_middle(a, b, c + tail);
    lemma_le64_roundtrip(price as u64);
    assert((price as u64) as i64 == price) by (bit_vector);
    assert(body =~= (a + b) + c + tail);
    lemma_read_in_middle(a + b, c, tail);
    lemma_le32_roundtrip(qty);
    if has {
        lemma_trade_optional(a + b + c, symbol, note);
    }
}

/// Reading the bitmap and optional fields of a trade body gives back what
/// was written.
proof fn lemma_trade_optional(pre: Seq<u8>, symbol: Option<Seq<u8>>, note: Option<Seq<u8>>)
    requires
        symbol matches Some(s) ==> s.len() <= u32::MAX,
        note matches Some(n) ==> n.len() <= u32::MAX,
    ensures
        ({
            let bm = trade_bitmap(symbol is Some, note is Some);
            let body = pre + (le16(bm) + opt_varbytes(symbol) + opt_varbytes(note));
            &&& read_u16(body, pre.len() as int) == Ok::<(u16, int), Error>(
                (bm, pre.len() + 2int),
            )
            &&& read_opt_varbytes(body, pre.len() + 2int, bm & (1u16 << 0u16) != 0) == Ok::<
                (Option<Seq<u8>>, int),
                Error,
            >((symbol, pre.len() + 2int + opt_varbytes(symbol).len()))
            &&& read_opt_varbytes(
                body,
                pre.len() + 2int + opt_varbytes(symbol).len(),
                bm & (1u16 << 1u16) != 0,
            ) matches Ok((n, _)) && n == note
        }),
{
    let empty = Seq::<u8>::empty();
    let bm = trade_bitmap(symbol is Some, note is Some);
    let d = le16(bm);
    let body = pre + (d + opt_varbytes(symbol) + opt_varbytes(note));
    assert(body =~= pre + d + (opt_varbytes(symbol) + opt_varbytes(note)));
    lemma_read_in_middle(pre, d, opt_varbytes(symbol) + opt_varbytes(note));
    lemma_le16_roundtrip(bm);
    lemma_trade_bitmap(symbol is Some, note is Some);
    assert(body =~= (pre + d) + opt_varbytes(symbol) + opt_varbytes(note));
    lemma_read_opt_varbytes(pre + d, symbol, opt_varbytes(note));
    assert(body =~= (pre + d + opt_varbytes(symbol)) + opt_varbytes(note) + empty);
    lemma_read_opt_varbytes(pre + d + opt_varbytes(symbol), note, empty);
}

/// Decoding trade fields ignores bytes that follow the fields it knows,
/// such as optional fields that a later version appends after the note.
pub proof fn lemma_trade_fields_extend(flags: u8, body: Seq<u8>, extra: Seq<u8>)
    requires
        trade_fields(flags, body) is Ok,
    ensures
        trade_fields(flags, body + extra) == trade_fields(flags, body),
{
    lemma_reads_extend(body, extra, 0);
    let (_, p1) = read_u64(body, 0)->Ok_0;
    lemma_reads_extend(body, extra, p1);
    let (_, p2) = read_u64(body, p1)->Ok_0;
    lemma_reads_extend(body, extra, p2);
    let (_, p3) = read_u32(body, p2)->Ok_0;
    if flags & FrameFlags::PRESENCE_BITMAP != 0 {
        lemma_reads_extend(body, extra, p3);
        let (bitmap, p4) = read_u16(body, p3)->Ok_0;
        lemma_reads_extend(body, extra, p4);
        let (_, p5) = read_opt_varbytes(body, p4, bitmap & (1u16 << 0u16) != 0)->Ok_0;
        lemma_read_opt_bounds(body, p4, bitmap & (1u16 << 0u16) != 0);
        lemma_reads_extend(body, extra, p5);
    }
}

/// A frame around a trade body decodes as a trade to its header and the
/// fields that the body reads as.
proof fn lemma_trade_frame_decode(h0: FrameHeader, body: Seq<u8>, rest: Seq<u8>)
    requires
        h0.magic == FRAME_MAGIC,
        h0.ver == 1,
        h0.flags & 0xF8u8 == 0,
        h0.msg_type == msg_types::TRADE_V1,
        body.len() + 20 <= MAX_FRAME_SIZE,
        trade_fields(h0.flags, body) is Ok,
    ensures
        trade_decode_spec(frame_bytes(h0, body) + rest) == Ok::<
            (FrameHeader, u64, i64, u32, Option<Seq<u8>>, Option<Seq<u8>>),
            Error,
        >(
            ({
                let (t, p, q, s, n) = trade_fields(h0.flags, body)->Ok_0;
                (with_len(h0, body.len() as u32), t, p, q, s, n)
            }),
        ),
{
    lemma_frame_roundtrip(h0, body, rest);
}

/// Decoding an encoded trade gives back its fields, and the header it was
/// begun with carrying the body's length, whatever follows the frame. This
/// holds of every trade whose frame stays within `MAX_FRAME_SIZE`.
pub proof fn lemma_trade_roundtrip(
    seq: u32,
    ts_ns: u64,
    price: i64,
    qty: u32,
    symbol: Option<Seq<u8>>,
    note: Option<Seq<u8>>,
    rest: Seq<u8>,
)
    requires
        trade_body(ts_ns, price, qty, symbol, note).len() + 20 <= MAX_FRAME_SIZE,
    ensures
        ({
            let body = trade_body(ts_ns, price, qty, symbol, note);
            let h = with_len(trade_header(seq, symbol is Some || note is Some), body.len() as u32);
            trade_decode_spec(trade_frame(seq, ts_ns, price, qty, symbol, note) + rest) == Ok::<
                (FrameHeader, u64, i64, u32, Option<Seq<u8>>, Option<Seq<u8>>),
                Error,
            >((h, ts_ns, price, qty, symbol, note))
        }),
{
    let has = symbol is Some || note is Some;
    let body = trade_body(ts_ns, price, qty, symbol, note);
    assert(body.len() >= opt_varbytes(symbol).len() + opt_varbytes(note).len()) by {
        if has {
            assert(body.len() == 20 + 2 + opt_varbytes(symbol).len() + opt_varbytes(note).len());
        }
    }
    lemma_trade_fields(ts_ns, price, qty, symbol, note);
    assert(0u8 & 0xF8u8 == 0 && 1u8 & 0xF8u8 == 0) by (bit_vector);
    let h0 = trade_header(seq, has);
    lemma_trade_frame_decode(h0, body, rest);
    let x = trade_fields(h0.flags, body)->Ok_0;
    assert(x == (ts_ns, price, qty, symbol, note));
    assert(trade_frame(seq, ts_ns, price, qty, symbol, note) == frame_bytes(h0, body));
}


/// The wire layout of an encoded trade, stated byte by byte: the header
/// (magic, version 1, presence flag exactly when an optional field is
/// present, message type 1, the sequence number, the body length), then at
/// offset 16 `ts_ns`, at 24 `price` (little-endian), at 32 `qty`; with an
/// optional field, at 36 the bitmap with bit 0 for the symbol and bit 1 for
/// the note, then the length-prefixed symbol and note, each when present;
/// and last the CRC32C of everything before it.
pub proof fn lemma_trade_layout(
    seq: u32,
    ts_ns: u64,
    price: i64,
    qty: u32,
    symbol: Option<Seq<u8>>,
    note: Option<Seq<u8>>,
)
    requires
        symbol matches Some(s) ==> s.len() <= u32::MAX,
        note matches Some(t) ==> t.len() <= u32::MAX,
    ensures
        ({
            let f = trade_frame(seq, ts_ns, price, qty, symbol, note);
            let n = f.len() as int;
            let has = symbol is Some || note is Some;
            let note_at = 38 + opt_varbytes(symbol).len() as int;
            &&& u16_at(f, 0) == FRAME_MAGIC
            &&& f[2] == 1
            &&& f[3] == (if has {
                1u8
            } else {
                0u8
            })
            &&& u16_at(f, 4) == 1
            &&& u32_at(f, 6) == seq
            &&& u32_at(f, 10) == (n - 20) as u32
            &&& u64_at(f, 16) == ts_ns
            &&& u64_at(f, 24) == price as u64
            &&& u32_at(f, 32) == qty
            &&& (!has) ==> n == 40
            &&& has ==> u16_at(f, 36) == (if symbol is Some {
                1int
            } else {
                0int
            }) + (if note is Some {
                2int
            } else {
                0int
            })
            &&& symbol matches Some(sym) ==> read_varbytes(f, 38) == Ok::<(Seq<u8>, int), Error>(
                (sym, note_at),
            )
            &&& note matches Some(t) ==> read_varbytes(f, note_at) == Ok::<(Seq<u8>, int), Error>(
                (t, n - 4),
            )
            &&& has ==> n == note_at + opt_varbytes(note).len() + 4
            &&& u32_at(f, n - 4) == crc32c_spec(f.take(n - 4))
        }),
{
    let has = symbol is Some || note is Some;
    let h = trade_header(seq, has);
    let body = trade_body(ts_ns, price, qty, symbol, note);
    let h2 = with_len(h, body.len() as u32);
    let hb = header_bytes(h2);
    let c = crc32c_spec(hb + body);
    let f = trade_frame(seq, ts_ns, price, qty, symbol, note);
    let a = le64(ts_ns);
    let b = le64(price as u64);
    let d = le32(qty);
    let bm = trade_bitmap(symbol is Some, note is Some);
    let e = le16(bm);
    let os = opt_varbytes(symbol);
    let on = opt_varbytes(note);
    let t = if has {
        e + os + on
    } else {
        Seq::<u8>::empty()
    };
    let crc = le32(c);
    assert(f =~= hb + (body + crc));
    lemma_header_at_bytes(h2, body + crc);
    assert(body =~= a + b + d + t);
    lemma_trade_fixed_layout(hb, ts_ns, price, qty, t, c);
    assert(f =~= hb + (a + b + d + t) + crc);
    if has {
        let pre = hb + a + b + d;
        assert(f =~= pre + e + os + on + crc);
        lemma_trade_optional_layout(pre, symbol, note, crc);
    }
}

/// After a 16-byte header: `ts_ns` at 16, `price` at 24, `qty` at 32, and
/// the checksum in the last four bytes, covering all before it.
proof fn lemma_trade_fixed_layout(hb: Seq<u8>, ts_ns: u64, price: i64, qty: u32, t: Seq<u8>, c: u32)
    requires
        hb.len() == 16,
    ensures
        ({
            let body = le64(ts_ns) + le64(price as u64) + le32(qty) + t;
            let f = hb + body + le32(c);
            let n = f.len() as int;
            &&& n == 40 + t.len()
            &&& u64_at(f, 16) == ts_ns
            &&& u64_at(f, 24) == price as u64
            &&& u32_at(f, 32) == qty
            &&& u32_at(f, n - 4) == c
            &&& f.take(n - 4) == hb + body
        }),
{
    let a = le64(ts_ns);
    let b = le64(price as u64);
    let d = le32(qty);
    let body = a + b + d + t;
    let crc = le32(c);
    let f = hb + body + crc;
    assert(f =~= hb + a + (b + d + t + crc));
    lemma_read_in_middle(hb, a, b + d + t + crc);
    lemma_le64_roundtrip(ts_ns);
    assert(f =~= (hb + a) + b + (d + t + crc));
    lemma_read_in_middle(hb + a, b, d + t + crc);
    lemma_le64_roundtrip(price as u64);
    assert(f =~= (hb + a + b) + d + (t + crc));
    lemma_read_in_middle(hb + a + b, d, t + crc);
    lemma_le32_roundtrip(qty);
    assert(f =~= (hb + body) + crc + Seq::<u8>::empty());
    lemma_read_in_middle(hb + body, crc, Seq::<u8>::empty());
    lemma_le32_roundtrip(c);
    assert(f.take(f.len() - 4) =~= hb + body);
}

/// Behind the 36 bytes of header and fixed fields: the bitmap, then the
/// symbol and the note, each length-prefixed when present.
proof fn lemma_trade_optional_layout(
    pre: Seq<u8>,
    symbol: Option<Seq<u8>>,
    note: Option<Seq<u8>>,
    crc: Seq<u8>,
)
    requires
        pre.len() == 36,
        crc.len() == 4,
        symbol matches Some(s) ==> s.len() <= u32::MAX,
        note matches Some(t) ==> t.len() <= u32::MAX,
    ensures
        ({
            let os = opt_varbytes(symbol);
            let on = opt_varbytes(note);
            let f = pre + le16(trade_bitmap(symbol is Some, note is Some)) + os + on + crc;
            let n = f.len() as int;
            let note_at = 38 + os.len() as int;
            &&& u16_at(f, 36) == (if symbol is Some {
                1int
            } else {
                0int
            }) + (if note is Some {
                2int
            } else {
                0int
            })
            &&& symbol matches Some(sym) ==> read_varbytes(f, 38) == Ok::<(Seq<u8>, int), Error>(
                (sym, note_at),
            )
            &&& note matches Some(t) ==> read_varbytes(f, note_at) == Ok::<(Seq<u8>, int), Error>(
                (t, n - 4),
            )
            &&& n == note_at + on.len() + 4
        }),
{
    let bm = trade_bitmap(symbol is Some, note is Some);
    let e = le16(bm);
    let os = opt_varbytes(symbol);
    let on = opt_varbytes(note);
    let f = pre + e + os + on + crc;
    assert(f =~= pre + e + (os + on + crc));
    lemma_read_in_middle(pre, e, os + on + crc);
    lemma_le16_roundtrip(bm);
    lemma_trade_bitmap_value(symbol is Some, note is Some);
    if let Some(sym) = symbol {
        assert(f =~= (pre + e) + varbytes(sym) + (on + crc));
        lemma_read_varbytes(pre + e, sym, on + crc);
    }
    if let Some(tn) = note {
        assert(f =~= (pre + e + os) + varbytes(tn) + crc);
        lemma_read_varbytes(pre + e + os, tn, crc);
    }
}

/// The trade bitmap has value 1 for the symbol plus 2 for the note.
proof fn lemma_trade_bitmap_value(has_symbol: bool, has_note: bool)
    ensures
        trade_bitmap(has_symbol, has_note) == (if has_symbol {
            1int
        } else {
            0int
        }) + (if has_note {
            2int
        } else {
            0int
        }),
{
    assert(((if has_symbol {
        1u16
    } else {
        0u16
    }) | (if has_note {
        2u16
    } else {
        0u16
    })) == (if has_symbol {
        1u16
    } else {
        0u16
    }) + (if has_note {
        2u16
    } else {
        0u16
    })) by (bit_vector);
}

/// Trade decoding accepts only trade frames whose checksum verifies: a
/// frame whose header decodes with another message type is refused with
/// `UnsupportedMsgType`, and a successful decode returns a header that
/// decodes from `buf` with message type 1, from a frame that passes
/// checksum verification.
pub proof fn lemma_trade_decode_checks(buf: Seq<u8>)
    ensures
        header_decode(buf) matches Ok(h) && h.msg_type != 1 ==> trade_decode_spec(buf) == Err::<
            (FrameHeader, u64, i64, u32, Option<Seq<u8>>, Option<Seq<u8>>),
            Error,
        >(Error::UnsupportedMsgType),
        trade_decode_spec(buf) matches Ok((h, _, _, _, _, _)) ==> {
            &&& h.msg_type == 1
            &&& header_decode(buf) == Ok::<FrameHeader, Error>(h)
            &&& frame_check(buf) == Ok::<(), Error>(())
        },
{
}

/// A trade frame whose header decodes but whose checksum does not match is
/// refused with `CrcMismatch`.
proof fn lemma_trade_decode_mismatch(buf: Seq<u8>)
    requires
        header_decode(buf) matches Ok(h) && h.msg_type == 1,
        frame_check(buf) == Err::<(), Error>(Error::CrcMismatch),
    ensures
        trade_decode_spec(buf) == Err::<
            (FrameHeader, u64, i64, u32, Option<Seq<u8>>, Option<Seq<u8>>),
            Error,
        >(Error::CrcMismatch),
{
}

/// Changing any one byte of the body or checksum of an encoded trade makes
/// trade decoding report a checksum mismatch, whatever follows the frame.
pub proof fn lemma_trade_corruption_detected(
    seq: u32,
    ts_ns: u64,
    price: i64,
    qty: u32,
    symbol: Option<Seq<u8>>,
    note: Option<Seq<u8>>,
    rest: Seq<u8>,
    i: int,
    v: u8,
)
    requires
        trade_body(ts_ns, price, qty, symbol, note).len() + 20 <= MAX_FRAME_SIZE,
        16 <= i < trade_frame(seq, ts_ns, price, qty, symbol, note).len(),
        v != trade_frame(seq, ts_ns, price, qty, symbol, note)[i],
    ensures
        trade_decode_spec(trade_frame(seq, ts_ns, price, qty, symbol, note).update(i, v) + rest)
            == Err::<(FrameHeader, u64, i64, u32, Option<Seq<u8>>, Option<Seq<u8>>), Error>(
            Error::CrcMismatch,
        ),
{
    let h = trade_header(seq, symbol is Some || note is Some);
    let body = trade_body(ts_ns, price, qty, symbol, note);
    let f = frame_bytes(h, body);
    assert(trade_frame(seq, ts_ns, price, qty, symbol, note) == f);
    assert(f.len() == 16 + body.len() + 4);
    let h2 = with_len(h, body.len() as u32);
    assert(h2.flags & 0xF8u8 == 0) by {
        assert(0u8 & 0xF8u8 == 0 && 1u8 & 0xF8u8 == 0) by (bit_vector);
    }
    assert(header_valid(h2));
    let g = f.update(i, v) + rest;
    lemma_frame_body_corruption(h, body, rest, i, v);
    assert(header_decode(g) == Ok::<FrameHeader, Error>(h2));
    assert(h2.msg_type == 1);
    lemma_trade_decode_mismatch(g);
    assert(trade_decode_spec(g) == Err::<
        (FrameHeader, u64, i64, u32, Option<Seq<u8>>, Option<Seq<u8>>),
        Error,
    >(Error::CrcMismatch));
    assert(trade_frame(seq, ts_ns, price, qty, symbol, note).update(i, v) + rest == g);
}

} // verus!
