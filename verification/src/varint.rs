//! Variable-length integer encoding (LEB128)
//!
//! Each byte carries seven bits of the value, least significant group
//! first; the high bit of a byte is set when more bytes follow. Used for
//! length prefixes in variable-length fields.

use crate::error::{Error, Result};
use crate::wire::splice;
use vstd::prelude::*;

verus! {

/// Maximum bytes needed for a u32 varint (5 bytes)
pub const MAX_VARINT_U32_SIZE: usize = 5;

/// Maximum bytes needed for a u64 varint (10 bytes)
pub const MAX_VARINT_U64_SIZE: usize = 10;

/// 128 to the power `n`: the weight of the `n`-th byte of a varint.
pub open spec fn pow128(n: nat) -> nat
    decreases n,
{
    if n == 0 {
        1
    } else {
        128 * pow128((n - 1) as nat)
    }
}

/// The LEB128 bytes of `v`: seven bits per byte, least significant group
/// first, the high bit set on every byte but the last.
pub open spec fn varint_bytes(v: nat) -> Seq<u8>
    decreases v,
{
    if v < 128 {
        seq![v as u8]
    } else {
        seq![(v % 128 + 128) as u8] + varint_bytes(v / 128)
    }
}

/// The number that LEB128 bytes stand for, ignoring the continuation bits.
pub open spec fn varint_value(s: Seq<u8>) -> nat
    decreases s.len(),
{
    if s.len() == 0 {
        0
    } else {
        (s[0] % 128) as nat + 128 * varint_value(s.drop_first())
    }
}

/// How many bytes a decoder that reads at most `max_bytes` bytes takes
/// from `buf` from index `i` on: up to and including the first byte whose
/// high bit is clear. Running out of input comes first, then exceeding
/// `max_bytes`.
pub open spec fn varint_extent_from(buf: Seq<u8>, max_bytes: nat, i: nat) -> Result<nat>
    decreases buf.len() - i,
{
    if i >= buf.len() {
        Err(Error::UnexpectedEof)
    } else if i >= max_bytes {
        Err(Error::Overflow)
    } else if buf[i as int] < 128 {
        Ok(i + 1)
    } else {
        varint_extent_from(buf, max_bytes, i + 1)
    }
}

/// How many bytes of `buf` a varint of at most `max_bytes` bytes occupies.
pub open spec fn varint_extent(buf: Seq<u8>, max_bytes: nat) -> Result<nat> {
    varint_extent_from(buf, max_bytes, 0)
}

/// What `decode_u32` gives for `buf`: the value modulo 2^32 (bits beyond
/// 32 are dropped) and the number of bytes read.
pub open spec fn decode_u32_spec(buf: Seq<u8>) -> Result<(u32, usize)> {
    match varint_extent(buf, 5) {
        Ok(n) => Ok(((varint_value(buf.take(n as int)) % 0x1_0000_0000) as u32, n as usize)),
        Err(e) => Err(e),
    }
}

/// What `decode_u64` gives for `buf`: the value modulo 2^64 and the number
/// of bytes read.
pub open spec fn decode_u64_spec(buf: Seq<u8>) -> Result<(u64, usize)> {
    match varint_extent(buf, 10) {
        Ok(n) => Ok(
            ((varint_value(buf.take(n as int)) % 0x1_0000_0000_0000_0000) as u64, n as usize),
        ),
        Err(e) => Err(e),
    }
}

/// What an encoder writes into a buffer of `room` bytes: the encoding of
/// `v` when it fits, else as much of it as fits.
pub open spec fn varint_written(v: nat, room: nat) -> Seq<u8> {
    if varint_bytes(v).len() <= room {
        varint_bytes(v)
    } else {
        varint_bytes(v).take(room as int)
    }
}

/// The encoding of `v` has at least one byte, and at most `k` bytes when
/// `v < 128^k`.
pub proof fn lemma_varint_bytes_len(v: nat, k: nat)
    requires
        1 <= k,
        v < pow128(k),
    ensures
        1 <= varint_bytes(v).len() <= k,
    decreases v,
{
    if v >= 128 {
        assert(k > 1) by {
            if k == 1 {
                assert(pow128(0) == 1);
                assert(pow128(1) == 128 * pow128(0));
            }
        }
        assert(v / 128 < pow128((k - 1) as nat)) by {
            assert(pow128(k) == 128 * pow128((k - 1) as nat));
        }
        lemma_varint_bytes_len(v / 128, (k - 1) as nat);
    }
}

/// The powers of 128 that bound the varint widths.
pub proof fn lemma_pow128_values()
    ensures
        pow128(5) == 0x8_0000_0000,
        pow128(10) == 0x40_0000_0000_0000_0000,
{
    reveal_with_fuel(pow128, 11);
}

/// Appending a byte adds its seven bits at the next position.
pub proof fn lemma_varint_value_push(s: Seq<u8>, b: u8)
    ensures
        varint_value(s.push(b)) == varint_value(s) + (b % 128) as nat * pow128(s.len()),
    decreases s.len(),
{
    let x = (b % 128) as nat;
    if s.len() == 0 {
        assert(s.push(b).drop_first() =~= Seq::<u8>::empty());
        assert(varint_value(Seq::<u8>::empty()) == 0);
        assert(pow128(0) == 1);
        assert(x * 1 == x);
    } else {
        let t = s.drop_first();
        assert(s.push(b).drop_first() =~= t.push(b));
        lemma_varint_value_push(t, b);
        let p = pow128(t.len());
        assert(pow128(s.len()) == 128 * p);
        assert(varint_value(s.push(b)) == (s[0] % 128) as nat + 128 * varint_value(t.push(b)));
        assert(varint_value(t.push(b)) == varint_value(t) + x * p);
        assert(128 * (varint_value(t) + x * p) == 128 * varint_value(t) + x * (128 * p))
            by (nonlinear_arith);
    }
}

/// The bytes of `varint_bytes(v)` decode to `v`, and followed by anything
/// they make up a varint of exactly their own length.
pub proof fn lemma_varint_bytes_decode(v: nat, rest: Seq<u8>, max_bytes: nat)
    requires
        varint_bytes(v).len() <= max_bytes,
    ensures
        varint_value(varint_bytes(v)) == v,
        varint_extent(varint_bytes(v) + rest, max_bytes) == Ok::<nat, Error>(
            varint_bytes(v).len(),
        ),
    decreases v,
{
    lemma_varint_extent_shift(v, rest, max_bytes, 0);
    let empty = Seq::<u8>::empty();
    assert(empty + varint_bytes(v) + rest =~= varint_bytes(v) + rest);
}

proof fn lemma_varint_extent_shift(v: nat, rest: Seq<u8>, max_bytes: nat, i: nat)
    requires
        i + varint_bytes(v).len() <= max_bytes,
    ensures
        varint_value(varint_bytes(v)) == v,
        forall|pre: Seq<u8>|
            pre.len() == i ==> varint_extent_from(#[trigger] (pre + varint_bytes(v) + rest), max_bytes, i)
                == Ok::<nat, Error>(i + varint_bytes(v).len()),
    decreases v,
{
    let e = varint_bytes(v);
    if v < 128 {
        assert(varint_value(e) == v) by {
            assert(e.drop_first() =~= Seq::<u8>::empty());
            assert(varint_value(Seq::<u8>::empty()) == 0);
        }
        assert forall|pre: Seq<u8>| pre.len() == i implies varint_extent_from(
            #[trigger] (pre + varint_bytes(v) + rest),
            max_bytes,
            i,
        ) == Ok::<nat, Error>(i + varint_bytes(v).len()) by {
            assert((pre + e + rest)[i as int] == e[0]);
        }
    } else {
        let tail = varint_bytes(v / 128);
        lemma_varint_extent_shift(v / 128, rest, max_bytes, i + 1);
        assert(e.drop_first() =~= tail);
        assert forall|pre: Seq<u8>| pre.len() == i implies varint_extent_from(
            #[trigger] (pre + varint_bytes(v) + rest),
            max_bytes,
            i,
        ) == Ok::<nat, Error>(i + varint_bytes(v).len()) by {
            let pre2 = pre.push(e[0]);
            assert(pre + e + rest =~= pre2 + tail + rest);
            assert((pre + e + rest)[i as int] == e[0]);
        }
    }
}

/// Decoding what `encode_u32` writes gives back the value and the number of
/// bytes written, whatever follows the encoding; the encoding takes at most
/// `MAX_VARINT_U32_SIZE` bytes.
pub proof fn lemma_varint_u32_roundtrip(v: u32, rest: Seq<u8>)
    ensures
        1 <= varint_bytes(v as nat).len() <= MAX_VARINT_U32_SIZE,
        decode_u32_spec(varint_bytes(v as nat) + rest) == Ok::<(u32, usize), Error>(
            (v, varint_bytes(v as nat).len() as usize),
        ),
{
    let e = varint_bytes(v as nat);
    lemma_pow128_values();
    lemma_varint_bytes_len(v as nat, 5);
    lemma_varint_bytes_decode(v as nat, rest, 5);
    assert((e + rest).take(e.len() as int) =~= e);
}

/// Decoding what `encode_u64` writes gives back the value and the number of
/// bytes written, whatever follows the encoding; the encoding takes at most
/// `MAX_VARINT_U64_SIZE` bytes.
pub proof fn lemma_varint_u64_roundtrip(v: u64, rest: Seq<u8>)
    ensures
        1 <= varint_bytes(v as nat).len() <= MAX_VARINT_U64_SIZE,
        decode_u64_spec(varint_bytes(v as nat) + rest) == Ok::<(u64, usize), Error>(
            (v, varint_bytes(v as nat).len() as usize),
        ),
{
    let e = varint_bytes(v as nat);
    lemma_pow128_values();
    lemma_varint_bytes_len(v as nat, 10);
    lemma_varint_bytes_decode(v as nat, rest, 10);
    assert((e + rest).take(e.len() as int) =~= e);
}

/// Bytes after a complete varint do not change what it decodes to.
pub proof fn lemma_decode_u32_extend(buf: Seq<u8>, extra: Seq<u8>)
    requires
        decode_u32_spec(buf) is Ok,
    ensures
        decode_u32_spec(buf + extra) == decode_u32_spec(buf),
{
    lemma_varint_extent_extend(buf, extra, 5, 0);
    lemma_varint_extent_bounds(buf, 5, 0);
    let n = varint_extent(buf, 5)->Ok_0;
    assert((buf + extra).take(n as int) =~= buf.take(n as int));
}

proof fn lemma_varint_extent_extend(buf: Seq<u8>, extra: Seq<u8>, max_bytes: nat, i: nat)
    ensures
        varint_extent_from(buf, max_bytes, i) is Ok ==> varint_extent_from(
            buf + extra,
            max_bytes,
            i,
        ) == varint_extent_from(buf, max_bytes, i),
    decreases buf.len() - i,
{
    if i < buf.len() && i < max_bytes {
        assert((buf + extra)[i as int] == buf[i as int]);
        if buf[i as int] >= 128 {
            lemma_varint_extent_extend(buf, extra, max_bytes, i + 1);
        }
    }
}

/// A decoded varint takes at least one and at most all of the bytes given.
pub proof fn lemma_decode_u32_size(buf: Seq<u8>)
    ensures
        decode_u32_spec(buf) matches Ok((v, k)) ==> 1 <= k <= buf.len() && k <= 5,
{
    lemma_varint_extent_bounds(buf, 5, 0);
}

/// A decoded varint takes at least one and at most all of the bytes given.
pub proof fn lemma_decode_u64_size(buf: Seq<u8>)
    ensures
        decode_u64_spec(buf) matches Ok((v, k)) ==> 1 <= k <= buf.len() && k <= 10,
{
    lemma_varint_extent_bounds(buf, 10, 0);
}

proof fn lemma_varint_extent_bounds(buf: Seq<u8>, max_bytes: nat, i: nat)
    ensures
        varint_extent_from(buf, max_bytes, i) matches Ok(n) ==> i < n <= buf.len() && n
            <= max_bytes,
    decreases buf.len() - i,
{
    if i < buf.len() && i < max_bytes && buf[i as int] >= 128 {
        lemma_varint_extent_bounds(buf, max_bytes, i + 1);
    }
}

/// Writes the LEB128 encoding of `value` at `at`, as far as it fits.
pub(crate) fn encode_varint_at(buf: &mut [u8], at: usize, value: u64) -> (r: Result<usize>)
    requires
        at <= old(buf)@.len(),
    ensures
        1 <= varint_bytes(value as nat).len() <= 10,
        final(buf)@.len() == old(buf)@.len(),
        final(buf)@ == splice(
            old(buf)@,
            at as int,
            varint_written(value as nat, (old(buf)@.len() - at) as nat),
        ),
        varint_bytes(value as nat).len() <= old(buf)@.len() - at ==> r == Ok::<usize, Error>(
            varint_bytes(value as nat).len() as usize,
        ),
        varint_bytes(value as nat).len() > old(buf)@.len() - at ==> r == Err::<usize, Error>(
            Error::ShortBuffer,
        ),
{
    let ghost enc = varint_bytes(value as nat);
    let ghost room = (old(buf)@.len() - at) as nat;
    proof {
        lemma_pow128_values();
        lemma_varint_bytes_len(value as nat, 10);
    }
    let len = buf.len();
    let mut v = value;
    let mut pos: usize = 0;
    loop
        invariant
            len == buf@.len(),
            len == old(buf)@.len(),
            at <= len,
            room == len - at,
            enc == varint_bytes(value as nat),
            enc.len() <= 10,
            pos < enc.len(),
            enc.skip(pos as int) =~= varint_bytes(v as nat),
            pos <= room,
            buf@ == splice(old(buf)@, at as int, enc.take(pos as int)),
        decreases v,
    {
        if pos >= len - at {
            assert(enc.take(room as int) =~= enc.take(pos as int));
            return Err(Error::ShortBuffer);
        }
        if v < 0x80 {
            buf[at + pos] = v as u8;
            proof {
                assert(varint_bytes(v as nat) =~= seq![v as u8]);
                assert(enc.skip(pos as int).len() == 1);
                assert(enc.len() == pos + 1);
                assert(enc[pos as int] == enc.skip(pos as int)[0]);
                assert(buf@ =~= splice(old(buf)@, at as int, enc));
            }
            return Ok(pos + 1);
        }
        buf[at + pos] = ((v % 128) as u8) + 128;
        proof {
            let t = varint_bytes((v / 128) as nat);
            assert(varint_bytes(v as nat) == seq![((v as nat) % 128 + 128) as u8] + t);
            assert((seq![((v as nat) % 128 + 128) as u8] + t).drop_first() =~= t);
            assert(t.len() >= 1);
            assert(enc[pos as int] == enc.skip(pos as int)[0]);
            assert(enc.skip(pos + 1) =~= enc.skip(pos as int).drop_first());
            assert(enc.take(pos + 1) =~= enc.take(pos as int).push(enc[pos as int]));
            assert(buf@ =~= splice(old(buf)@, at as int, enc.take(pos + 1)));
        }
        v = v / 128;
        pos = pos + 1;
    }
}

/// Reads a varint of at most `max_bytes` bytes from the start of `buf`:
/// its exact value and the number of bytes it takes.
pub(crate) fn decode_varint(buf: &[u8], max_bytes: usize) -> (r: Result<(u128, usize)>)
    requires
        max_bytes <= 10,
    ensures
        match varint_extent(buf@, max_bytes as nat) {
            Ok(n) => r matches Ok((v, k)) && v == varint_value(buf@.take(n as int)) && k == n,
            Err(e) => r == Err::<(u128, usize), Error>(e),
        },
{
    let mut acc: u128 = 0;
    let mut mult: u128 = 1;
    let mut pos: usize = 0;
    proof {
        assert(buf@.take(0) =~= Seq::<u8>::empty());
    }
    loop
        invariant
            max_bytes <= 10,
            pos <= max_bytes,
            pos <= buf@.len(),
            mult == pow128(pos as nat),
            acc == varint_value(buf@.take(pos as int)),
            acc < mult,
            varint_extent(buf@, max_bytes as nat) == varint_extent_from(
                buf@,
                max_bytes as nat,
                pos as nat,
            ),
        decreases buf@.len() - pos,
    {
        if pos >= buf.len() {
            return Err(Error::UnexpectedEof);
        }
        if pos >= max_bytes {
            return Err(Error::Overflow);
        }
        let byte = buf[pos];
        let d = (byte % 128) as u128;
        proof {
            lemma_pow128_bound(pos as nat);
            assert(d * mult <= 127 * mult) by (nonlinear_arith)
                requires
                    d <= 127,
            ;
            lemma_varint_value_push(buf@.take(pos as int), byte);
            assert(buf@.take(pos + 1) =~= buf@.take(pos as int).push(byte));
            }
        acc = acc + d * mult;
        pos = pos + 1;
        if byte < 128 {
            return Ok((acc, pos));
        }
        mult = mult * 128;
    }
}

proof fn lemma_pow128_bound(n: nat)
    requires
        n <= 10,
    ensures
        pow128(n) <= 0x40_0000_0000_0000_0000,
{
    lemma_pow128_values();
    lemma_pow128_monotonic(n, 10);
}

proof fn lemma_pow128_monotonic(n: nat, m: nat)
    requires
        n <= m,
    ensures
        pow128(n) <= pow128(m),
    decreases m,
{
    if n < m {
        lemma_pow128_monotonic(n, (m - 1) as nat);
    }
}

/// Encode a u32 as varint into the given buffer
///
/// Returns the number of bytes written, or Error::ShortBuffer if insufficient space.
pub fn encode_u32(value: u32, buf: &mut [u8]) -> (r: Result<usize>)
    ensures
        final(buf)@ == splice(old(buf)@, 0, varint_written(value as nat, old(buf)@.len())),
        varint_bytes(value as nat).len() <= old(buf)@.len() ==> r == Ok::<usize, Error>(
            varint_bytes(value as nat).len() as usize,
        ),
        varint_bytes(value as nat).len() > old(buf)@.len() ==> r == Err::<usize, Error>(
            Error::ShortBuffer,
        ),
{
    encode_varint_at(buf, 0, value as u64)
}

/// Decode a u32 varint from the given buffer
///
/// Returns (value, bytes_consumed) or an error.
pub fn decode_u32(buf: &[u8]) -> (r: Result<(u32, usize)>)
    ensures
        r == decode_u32_spec(buf@),
{
    match decode_varint(buf, 5) {
        Ok((v, n)) => Ok(((v % 0x1_0000_0000) as u32, n)),
        Err(e) => Err(e),
    }
}

/// Encode a u64 as varint into the given buffer
///
/// Returns the number of bytes written, or Error::ShortBuffer if insufficient space.
pub fn encode_u64(value: u64, buf: &mut [u8]) -> (r: Result<usize>)
    ensures
        final(buf)@ == splice(old(buf)@, 0, varint_written(value as nat, old(buf)@.len())),
        varint_bytes(value as nat).len() <= old(buf)@.len() ==> r == Ok::<usize, Error>(
            varint_bytes(value as nat).len() as usize,
        ),
        varint_bytes(value as nat).len() > old(buf)@.len() ==> r == Err::<usize, Error>(
            Error::ShortBuffer,
        ),
{
    encode_varint_at(buf, 0, value)
}

/// Decode a u64 varint from the given buffer
///
/// Returns (value, bytes_consumed) or an error.
pub fn decode_u64(buf: &[u8]) -> (r: Result<(u64, usize)>)
    ensures
        r == decode_u64_spec(buf@),
{
    match decode_varint(buf, 10) {
        Ok((v, n)) => Ok(((v % 0x1_0000_0000_0000_0000) as u64, n)),
        Err(e) => Err(e),
    }
}

} // verus!
