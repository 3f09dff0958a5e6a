//! Presence bitmap utilities for optional fields
//!
//! Supports 8-bit and 16-bit presence bitmaps for tracking which optional
//! fields are present in a message. Bit `i` stands for field `i`.

use crate::error::{Error, Result};
use crate::wire::{le16, lemma_le16_roundtrip, read_u16_at, splice, u16_at, write_u16_at};
use vstd::prelude::*;

verus! {

/// Maximum fields supported by 8-bit bitmap
pub const BITMAP_8_MAX_FIELDS: usize = 8;

/// Maximum fields supported by 16-bit bitmap
pub const BITMAP_16_MAX_FIELDS: usize = 16;

/// Presence bitmap helper
#[derive(Debug, Clone, Copy, PartialEq, Eq, Structural)]
pub struct PresenceBitmap {
    bits: u16,
    size: BitmapSize,
}

/// Bitmap size variants
#[derive(Debug, Clone, Copy, PartialEq, Eq, Structural)]
pub enum BitmapSize {
    /// 8-bit bitmap (1 byte)
    U8,
    /// 16-bit bitmap (2 bytes)
    U16,
}

/// Bit `i` of `bits` is set.
pub open spec fn bit_set(bits: u16, i: u16) -> bool {
    (bits >> i) & 1u16 != 0
}

/// The number of set bits of `bits`.
pub open spec fn popcount(bits: u16) -> nat
    decreases bits,
{
    if bits == 0 {
        0
    } else {
        (bits % 2) as nat + popcount(bits / 2)
    }
}

/// The bytes a bitmap of `size` with `bits` is encoded as: the low byte for
/// an 8-bit bitmap, both bytes little-endian for a 16-bit one.
pub open spec fn bitmap_bytes(bits: u16, size: BitmapSize) -> Seq<u8> {
    match size {
        BitmapSize::U8 => seq![bits as u8],
        BitmapSize::U16 => le16(bits),
    }
}

/// What decoding a bitmap of `size` from `buf` gives: its bits and the
/// number of bytes read.
pub open spec fn bitmap_decode_spec(buf: Seq<u8>, size: BitmapSize) -> Result<(u16, nat)> {
    match size {
        BitmapSize::U8 => if buf.len() < 1 {
            Err(Error::UnexpectedEof)
        } else {
            Ok((buf[0] as u16, 1))
        },
        BitmapSize::U16 => if buf.len() < 2 {
            Err(Error::UnexpectedEof)
        } else {
            Ok((u16_at(buf, 0), 2))
        },
    }
}

/// Setting bit `i` sets it and leaves the other bits; clearing it clears it
/// and leaves the other bits.
pub proof fn lemma_bit_set_clear(bits: u16, i: u16, j: u16)
    requires
        i < 16,
        j < 16,
    ensures
        bit_set(bits | (1u16 << i), j) == (j == i || bit_set(bits, j)),
        bit_set(bits & !(1u16 << i), j) == (j != i && bit_set(bits, j)),
{
    assert(i < 16 && j < 16 ==> (((bits | (1u16 << i)) >> j) & 1u16 != 0) == (j == i || (bits
        >> j) & 1u16 != 0)) by (bit_vector);
    assert(i < 16 && j < 16 ==> (((bits & !(1u16 << i)) >> j) & 1u16 != 0) == (j != i && (bits
        >> j) & 1u16 != 0)) by (bit_vector);
}

/// An encoded bitmap decodes to the bits it was encoded with, whatever
/// follows it, when the bits fit the size.
pub proof fn lemma_bitmap_roundtrip(bits: u16, size: BitmapSize, rest: Seq<u8>)
    requires
        size == BitmapSize::U8 ==> bits < 256,
    ensures
        bitmap_decode_spec(bitmap_bytes(bits, size) + rest, size) == Ok::<(u16, nat), Error>(
            (bits, size.spec_bytes()),
        ),
{
    match size {
        BitmapSize::U8 => {
            assert((bitmap_bytes(bits, size) + rest)[0] == bits as u8);
        },
        BitmapSize::U16 => {
            let s = bitmap_bytes(bits, size) + rest;
            lemma_le16_roundtrip(bits);
            assert(s[0] == le16(bits)[0] && s[1] == le16(bits)[1]);
        },
    }
}

/// Setting field `i` within the size (what `set` does to the bits) makes
/// it present and leaves the other fields as they were.
pub proof fn lemma_set_present(before: PresenceBitmap, after: PresenceBitmap, i: usize, j: int)
    requires
        i < before.spec_size().spec_max_fields(),
        after.spec_size() == before.spec_size(),
        after.spec_bits() == before.spec_bits() | (1u16 << i as u16),
    ensures
        after.present(j) == (j == i || before.present(j)),
{
    if 0 <= j < before.spec_size().spec_max_fields() {
        lemma_bit_set_clear(before.spec_bits(), i as u16, j as u16);
    }
}

/// Clearing field `i` within the size (what `clear` does to the bits)
/// makes it absent and leaves the other fields as they were.
pub proof fn lemma_clear_present(before: PresenceBitmap, after: PresenceBitmap, i: usize, j: int)
    requires
        i < before.spec_size().spec_max_fields(),
        after.spec_size() == before.spec_size(),
        after.spec_bits() == before.spec_bits() & !(1u16 << i as u16),
    ensures
        after.present(j) == (j != i && before.present(j)),
{
    if 0 <= j < before.spec_size().spec_max_fields() {
        lemma_bit_set_clear(before.spec_bits(), i as u16, j as u16);
    }
}

impl BitmapSize {
    /// Size in bytes.
    pub open spec fn spec_bytes(self) -> nat {
        match self {
            BitmapSize::U8 => 1,
            BitmapSize::U16 => 2,
        }
    }

    /// The number of fields.
    pub open spec fn spec_max_fields(self) -> nat {
        match self {
            BitmapSize::U8 => 8,
            BitmapSize::U16 => 16,
        }
    }

    /// Size in bytes
    pub fn bytes(&self) -> (n: usize)
        ensures
            n == self.spec_bytes(),
    {
        match self {
            BitmapSize::U8 => 1,
            BitmapSize::U16 => 2,
        }
    }

    /// Maximum field index
    pub fn max_fields(&self) -> (n: usize)
        ensures
            n == self.spec_max_fields(),
    {
        match self {
            BitmapSize::U8 => BITMAP_8_MAX_FIELDS,
            BitmapSize::U16 => BITMAP_16_MAX_FIELDS,
        }
    }
}

impl PresenceBitmap {
    /// The raw bits.
    pub closed spec fn spec_bits(self) -> u16 {
        self.bits
    }

    /// The size.
    pub closed spec fn spec_size(self) -> BitmapSize {
        self.size
    }

    /// Field `i` is present: it is within the size and its bit is set.
    pub open spec fn present(self, i: int) -> bool {
        0 <= i < self.spec_size().spec_max_fields() && bit_set(self.spec_bits(), i as u16)
    }

    /// Create new empty bitmap
    pub fn new(size: BitmapSize) -> (b: Self)
        ensures
            b.spec_bits() == 0,
            b.spec_size() == size,
    {
        Self { bits: 0, size }
    }

    /// Create from raw bits value
    pub fn from_bits(bits: u16, size: BitmapSize) -> (b: Self)
        ensures
            b.spec_bits() == bits,
            b.spec_size() == size,
    {
        Self { bits, size }
    }

    /// Get raw bits value
    pub fn bits(&self) -> (bits: u16)
        ensures
            bits == self.spec_bits(),
    {
        self.bits
    }

    /// Get bitmap size
    pub fn size(&self) -> (size: BitmapSize)
        ensures
            size == self.spec_size(),
    {
        self.size
    }

    /// Set a field as present
    pub fn set(&mut self, field_idx: usize) -> (r: Result<()>)
        ensures
            final(self).spec_size() == old(self).spec_size(),
            field_idx >= old(self).spec_size().spec_max_fields() ==> r == Err::<(), Error>(
                Error::Overflow,
            ) && final(self).spec_bits() == old(self).spec_bits(),
            field_idx < old(self).spec_size().spec_max_fields() ==> r == Ok::<(), Error>(())
                && final(self).spec_bits() == old(self).spec_bits() | (1u16 << field_idx as u16),
    {
        if field_idx >= self.size.max_fields() {
            return Err(Error::Overflow);
        }
        self.bits = self.bits | (1u16 << field_idx as u16);
        Ok(())
    }

    /// Clear a field (mark as absent)
    pub fn clear(&mut self, field_idx: usize) -> (r: Result<()>)
        ensures
            final(self).spec_size() == old(self).spec_size(),
            field_idx >= old(self).spec_size().spec_max_fields() ==> r == Err::<(), Error>(
                Error::Overflow,
            ) && final(self).spec_bits() == old(self).spec_bits(),
            field_idx < old(self).spec_size().spec_max_fields() ==> r == Ok::<(), Error>(())
                && final(self).spec_bits() == old(self).spec_bits() & !(1u16 << field_idx as u16),
    {
        if field_idx >= self.size.max_fields() {
            return Err(Error::Overflow);
        }
        self.bits = self.bits & !(1u16 << field_idx as u16);
        Ok(())
    }

    /// Check if a field is present
    pub fn is_set(&self, field_idx: usize) -> (b: bool)
        ensures
            b == self.present(field_idx as int),
    {
        if field_idx >= self.size.max_fields() {
            return false;
        }
        (self.bits >> field_idx as u16) & 1 != 0
    }

    /// Count number of set bits
    pub fn count_set(&self) -> (n: usize)
        ensures
            n == popcount(self.spec_bits()),
    {
        let mut rest: u16 = self.bits;
        let mut count: usize = 0;
        proof {
            lemma_popcount_bound(self.bits);
        }
        while rest != 0
            invariant
                count + popcount(rest) == popcount(self.bits),
                popcount(self.bits) <= 16,
            decreases rest,
        {
            count = count + (rest % 2) as usize;
            rest = rest / 2;
        }
        count
    }

    /// Check if bitmap is empty (no fields set)
    pub fn is_empty(&self) -> (b: bool)
        ensures
            b == (self.spec_bits() == 0),
    {
        self.bits == 0
    }

    /// Encode bitmap to buffer
    pub fn encode(&self, buf: &mut [u8]) -> (r: Result<usize>)
        ensures
            old(buf)@.len() < self.spec_size().spec_bytes() ==> r == Err::<usize, Error>(
                Error::ShortBuffer,
            ) && final(buf)@ == old(buf)@,
            old(buf)@.len() >= self.spec_size().spec_bytes() ==> r == Ok::<usize, Error>(
                self.spec_size().spec_bytes() as usize,
            ) && final(buf)@ == splice(
                old(buf)@,
                0,
                bitmap_bytes(self.spec_bits(), self.spec_size()),
            ),
    {
        match self.size {
            BitmapSize::U8 => {
                if buf.is_empty() {
                    return Err(Error::ShortBuffer);
                }
                let ghost b0 = buf@;
                buf[0] = self.bits as u8;
                assert(buf@ =~= splice(b0, 0, seq![self.bits as u8]));
                Ok(1)
            },
            BitmapSize::U16 => {
                if buf.len() < 2 {
                    return Err(Error::ShortBuffer);
                }
                write_u16_at(buf, 0, self.bits);
                Ok(2)
            },
        }
    }

    /// Decode bitmap from buffer
    pub fn decode(buf: &[u8], size: BitmapSize) -> (r: Result<(Self, usize)>)
        ensures
            match bitmap_decode_spec(buf@, size) {
                Ok((bits, n)) => r matches Ok((b, k)) && b.spec_bits() == bits && b.spec_size()
                    == size && k == n,
                Err(e) => r matches Err(e2) && e2 == e,
            },
    {
        match size {
            BitmapSize::U8 => {
                if buf.is_empty() {
                    return Err(Error::UnexpectedEof);
                }
                let bitmap = Self::from_bits(buf[0] as u16, size);
                Ok((bitmap, 1))
            },
            BitmapSize::U16 => {
                if buf.len() < 2 {
                    return Err(Error::UnexpectedEof);
                }
                let bits = read_u16_at(buf, 0);
                let bitmap = Self::from_bits(bits, size);
                Ok((bitmap, 2))
            },
        }
    }

    /// The indices of the present fields, in increasing order
    pub fn iter_set(&self) -> (v: Vec<usize>)
        ensures
            forall|k: int| 0 <= k < v@.len() ==> self.present(#[trigger] v@[k] as int),
            forall|k: int, l: int| 0 <= k < l < v@.len() ==> v@[k] < v@[l],
            forall|i: int| #[trigger] self.present(i) ==> v@.contains(i as usize),
    {
        let max = self.size.max_fields();
        let mut v: Vec<usize> = Vec::new();
        let mut i: usize = 0;
        while i < max
            invariant
                max == self.spec_size().spec_max_fields(),
                i <= max,
                forall|k: int| 0 <= k < v@.len() ==> self.present(#[trigger] v@[k] as int),
                forall|k: int| 0 <= k < v@.len() ==> #[trigger] v@[k] < i,
                forall|k: int, l: int| 0 <= k < l < v@.len() ==> v@[k] < v@[l],
                forall|j: int| 0 <= j < i && #[trigger] self.present(j) ==> v@.contains(
                    j as usize,
                ),
            decreases max - i,
        {
            if self.is_set(i) {
                let ghost old_v = v@;
                v.push(i);
                assert forall|j: int| 0 <= j < i + 1 && #[trigger] self.present(j) implies v@.contains(
                    j as usize,
                ) by {
                    if j < i {
                        let k = choose|k: int| 0 <= k < old_v.len() && old_v[k] == j as usize;
                        assert(v@[k] == j as usize);
                    } else {
                        assert(v@[old_v.len() as int] == i);
                    }
                }
            }
            i = i + 1;
        }
        v
    }
}

proof fn lemma_popcount_bound(bits: u16)
    ensures
        popcount(bits) <= 16,
{
    reveal_with_fuel(pow2_u16, 17);
    lemma_popcount_below(bits, 16);
}

proof fn lemma_popcount_below(bits: u16, k: nat)
    requires
        bits < pow2_u16(k),
        k <= 16,
    ensures
        popcount(bits) <= k,
    decreases bits,
{
    if bits != 0 {
        assert(k > 0) by {
            if k == 0 {
                assert(pow2_u16(0) == 1);
            }
        }
        assert(bits / 2 < pow2_u16((k - 1) as nat)) by {
            assert(pow2_u16(k) == 2 * pow2_u16((k - 1) as nat));
        }
        lemma_popcount_below(bits / 2, (k - 1) as nat);
    }
}

/// 2 to the power `k`.
spec fn pow2_u16(k: nat) -> nat
    decreases k,
{
    if k == 0 {
        1
    } else {
        2 * pow2_u16((k - 1) as nat)
    }
}

/// Builder for constructing presence bitmaps
#[derive(Debug)]
pub struct BitmapBuilder {
    bitmap: PresenceBitmap,
}

impl BitmapBuilder {
    /// The bitmap built so far.
    pub closed spec fn spec_bitmap(self) -> PresenceBitmap {
        self.bitmap
    }

    /// Create new builder
    pub fn new(size: BitmapSize) -> (b: Self)
        ensures
            b.spec_bitmap().spec_bits() == 0,
            b.spec_bitmap().spec_size() == size,
    {
        Self { bitmap: PresenceBitmap::new(size) }
    }

    /// Set a field as present
    pub fn with_field(self, field_idx: usize) -> (r: Result<Self>)
        ensures
            field_idx >= self.spec_bitmap().spec_size().spec_max_fields() ==> (r matches Err(e)
                && e == Error::Overflow),
            field_idx < self.spec_bitmap().spec_size().spec_max_fields() ==> (r matches Ok(b)
                && b.spec_bitmap().spec_size() == self.spec_bitmap().spec_size()
                && b.spec_bitmap().spec_bits() == self.spec_bitmap().spec_bits() | (1u16
                << field_idx as u16)),
    {
        let mut b = self;
        b.bitmap.set(field_idx)?;
        Ok(b)
    }

    /// Build final bitmap
    pub fn build(self) -> (b: PresenceBitmap)
        ensures
            b == self.spec_bitmap(),
    {
        self.bitmap
    }
}

} // verus!
