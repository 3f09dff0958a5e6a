//! High-level message encoding/decoding utilities
//!
//! Message schemas with fixed fields followed, when any optional field is
//! present, by a 16-bit presence bitmap and the present optional fields as
//! length-prefixed bytes.

pub mod msg_types;
pub mod quote;
pub mod trade;

use crate::decoder::read_varbytes;
use crate::varint::{lemma_varint_u32_roundtrip, varint_bytes};
use crate::wire::{lemma_splice_append, splice};
use vstd::prelude::*;

verus! {

/// Length-prefixed bytes: the varint of the length taken as a `u32`, then
/// the bytes.
pub open spec fn varbytes(b: Seq<u8>) -> Seq<u8> {
    varint_bytes((b.len() as u32) as nat) + b
}

/// The encoding of an optional field: its length-prefixed bytes when
/// present, nothing when absent.
pub open spec fn opt_varbytes(o: Option<Seq<u8>>) -> Seq<u8> {
    match o {
        Some(b) => varbytes(b),
        None => Seq::empty(),
    }
}

/// The bytes an optional borrowed slice stands for.
pub open spec fn opt_view(o: Option<&[u8]>) -> Option<Seq<u8>> {
    match o {
        Some(s) => Some(s@),
        None => None,
    }
}

/// Reading an optional field at `pos`: length-prefixed bytes when
/// `present`, nothing otherwise.
pub open spec fn read_opt_varbytes(buf: Seq<u8>, pos: int, present: bool) -> crate::error::Result<
    (Option<Seq<u8>>, int),
> {
    if present {
        match read_varbytes(buf, pos) {
            Ok((b, p)) => Ok((Some(b), p)),
            Err(e) => Err(e),
        }
    } else {
        Ok((None, pos))
    }
}

/// `buf` is `old` with a prefix of `data` written at its start.
pub open spec fn holds_prefix(buf: Seq<u8>, old: Seq<u8>, data: Seq<u8>) -> bool {
    exists|k: int| 0 <= k <= data.len() && #[trigger] splice(old, 0, data.take(k)) == buf
}

/// Before writing `piece` after the prefix `hb + acc` of `hb + body`, each
/// way the write can end (nothing written, as much as fits, all of it)
/// leaves a prefix of `hb + body` in the buffer.
pub proof fn lemma_write_outcomes(
    b0: Seq<u8>,
    hb: Seq<u8>,
    acc: Seq<u8>,
    piece: Seq<u8>,
    tail: Seq<u8>,
    body: Seq<u8>,
)
    requires
        hb.len() + acc.len() <= b0.len(),
        body == acc + piece + tail,
    ensures
        holds_prefix(splice(b0, 0, hb + acc), b0, hb + body),
        ({
            let room = b0.len() - hb.len() - acc.len();
            room < piece.len() ==> holds_prefix(
                splice(splice(b0, 0, hb + acc), hb.len() + acc.len() as int, piece.take(room)),
                b0,
                hb + body,
            )
        }),
        hb.len() + acc.len() + piece.len() <= b0.len() ==> holds_prefix(
            splice(splice(b0, 0, hb + acc), hb.len() + acc.len() as int, piece),
            b0,
            hb + body,
        ),
{
    let data = hb + body;
    let x = hb + acc;
    assert(body.take(acc.len() + piece.len() as int) =~= acc + piece);
    assert(body.take(acc.len() as int) =~= acc) by {
        assert forall|i: int| 0 <= i < acc.len() implies body.take(acc.len() as int)[i] == acc[i] by {
            assert(body[i] == body.take(acc.len() + piece.len() as int)[i]);
            assert((acc + piece)[i] == acc[i]);
        }
    }
    lemma_prefix_concat(hb, body, acc);
    let room = b0.len() - hb.len() - acc.len();
    if room < piece.len() {
        let y = piece.take(room);
        lemma_splice_append(b0, 0, x, y);
        assert(body.take(acc.len() + y.len() as int) =~= acc + y) by {
            assert forall|i: int| 0 <= i < acc.len() + y.len() implies body.take(
                acc.len() + y.len() as int,
            )[i] == (acc + y)[i] by {
                assert(body[i] == body.take(acc.len() + piece.len() as int)[i]);
            }
        }
        lemma_prefix_concat(hb, body, acc + y);
        assert(x + y =~= hb + (acc + y));
    }
    if hb.len() + acc.len() + piece.len() <= b0.len() {
        lemma_splice_append(b0, 0, x, piece);
        lemma_prefix_concat(hb, body, acc + piece);
        assert(x + piece =~= hb + (acc + piece));
    }
}

/// A prefix `w` of `body` after `hb` is a prefix of `hb + body`, and the
/// buffer holding it holds a prefix of `hb + body`.
proof fn lemma_prefix_concat(hb: Seq<u8>, body: Seq<u8>, w: Seq<u8>)
    requires
        w.len() <= body.len(),
        body.take(w.len() as int) == w,
    ensures
        (hb + body).take(hb.len() + w.len() as int) == hb + w,
        forall|b0: Seq<u8>|
            hb.len() + w.len() <= b0.len() ==> holds_prefix(
                #[trigger] splice(b0, 0, hb + w),
                b0,
                hb + body,
            ),
{
    let n = hb.len() + w.len() as int;
    assert((hb + body).take(n) =~= hb + w) by {
        assert forall|i: int| 0 <= i < n implies (hb + body).take(n)[i] == (hb + w)[i] by {
            if i >= hb.len() {
                assert(body[i - hb.len()] == body.take(w.len() as int)[i - hb.len()]);
            }
        }
    }
    assert forall|b0: Seq<u8>| hb.len() + w.len() <= b0.len() implies holds_prefix(
        #[trigger] splice(b0, 0, hb + w),
        b0,
        hb + body,
    ) by {
        assert(splice(b0, 0, (hb + body).take(n)) == splice(b0, 0, hb + w));
    }
}

/// Reading length-prefixed bytes where they were written gives them back
/// and moves past them.
pub proof fn lemma_read_varbytes(pre: Seq<u8>, b: Seq<u8>, post: Seq<u8>)
    requires
        b.len() <= u32::MAX,
    ensures
        read_varbytes(pre + varbytes(b) + post, pre.len() as int) == Ok::<
            (Seq<u8>, int),
            crate::error::Error,
        >((b, (pre.len() + varbytes(b).len()) as int)),
{
    let n = b.len() as u32;
    let v = varint_bytes(n as nat);
    let s = pre + varbytes(b) + post;
    lemma_varint_u32_roundtrip(n, b + post);
    assert(s.skip(pre.len() as int) =~= v + (b + post));
    let start = pre.len() + v.len();
    assert(s.subrange(start as int, (start + b.len()) as int) =~= b);
}

/// Reading an optional field that succeeds stays within the buffer.
pub proof fn lemma_read_opt_bounds(buf: Seq<u8>, pos: int, present: bool)
    requires
        0 <= pos <= buf.len(),
        read_opt_varbytes(buf, pos, present) is Ok,
    ensures
        pos <= read_opt_varbytes(buf, pos, present)->Ok_0.1 <= buf.len(),
{
    if present {
        crate::varint::lemma_decode_u32_size(buf.skip(pos));
    }
}

/// Reading an optional field where it was written gives it back and moves
/// past it.
pub proof fn lemma_read_opt_varbytes(pre: Seq<u8>, o: Option<Seq<u8>>, post: Seq<u8>)
    requires
        o matches Some(b) ==> b.len() <= u32::MAX,
    ensures
        read_opt_varbytes(pre + opt_varbytes(o) + post, pre.len() as int, o is Some) == Ok::<
            (Option<Seq<u8>>, int),
            crate::error::Error,
        >((o, (pre.len() + opt_varbytes(o).len()) as int)),
{
    if let Some(b) = o {
        lemma_read_varbytes(pre, b, post);
    }
}

} // verus!
