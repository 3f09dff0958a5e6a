//! CRC32C (Castagnoli) checksums used for frame integrity verification.
//!
//! The checksum is the reflected CRC-32C: polynomial 0x82F63B78 in
//! bit-reversed form, register initialised to all ones, final register
//! complemented. The implementation is table driven; the table is proved to
//! hold the eight-bit register steps that the specification performs bit
//! by bit. The table is built on the stack for each checksum, so computing
//! one allocates nothing.

use vstd::prelude::*;

verus! {

/// CRC32C polynomial (Castagnoli), bit-reversed
const CRC32C_POLYNOMIAL: u32 = 0x82F63B78;

/// One bit step of the CRC register.
pub open spec fn crc_shift(c: u32) -> u32 {
    if c & 1u32 != 0u32 {
        (c >> 1u32) ^ 0x82F63B78u32
    } else {
        c >> 1u32
    }
}

/// `k` bit steps of the CRC register.
pub open spec fn crc_shifts(c: u32, k: nat) -> u32
    decreases k,
{
    if k == 0 {
        c
    } else {
        crc_shift(crc_shifts(c, (k - 1) as nat))
    }
}

/// Eight bit steps of the CRC register: the effect of one byte.
pub open spec fn crc_shift8(c: u32) -> u32 {
    crc_shift(crc_shift(crc_shift(crc_shift(crc_shift(crc_shift(crc_shift(crc_shift(c))))))))
}

/// The CRC register after feeding `data`, starting from all ones.
pub open spec fn crc_register(data: Seq<u8>) -> u32
    decreases data.len(),
{
    if data.len() == 0 {
        0xFFFF_FFFFu32
    } else {
        crc_shift8(crc_register(data.drop_last()) ^ (data.last() as u32))
    }
}

/// The CRC32C checksum of `data`.
#[verifier::opaque]
pub open spec fn crc32c_spec(data: Seq<u8>) -> u32 {
    !crc_register(data)
}

/// The byte step is linear: it distributes over exclusive or.
proof fn lemma_crc_shift8_xor(x: u32, y: u32)
    ensures
        crc_shift8(x ^ y) == crc_shift8(x) ^ crc_shift8(y),
{
    assert(forall|a: u32, b: u32| #[trigger] crc_shift(a ^ b) == crc_shift(a) ^ crc_shift(b))
        by (bit_vector);
}

/// The byte step sends only zero to zero.
proof fn lemma_crc_shift8_nonzero(x: u32)
    requires
        x != 0,
    ensures
        crc_shift8(x) != 0,
{
    assert(forall|a: u32| a != 0 ==> #[trigger] crc_shift(a) != 0) by (bit_vector);
}

/// Registers that differ stay different after feeding the same bytes.
proof fn lemma_crc_register_differ(d1: Seq<u8>, d2: Seq<u8>, k: int)
    requires
        d1.len() == d2.len(),
        0 <= k <= d1.len(),
        crc_register(d1.take(k)) != crc_register(d2.take(k)),
        forall|j: int| k <= j < d1.len() ==> d1[j] == d2[j],
    ensures
        crc_register(d1) != crc_register(d2),
    decreases d1.len() - k,
{
    if k < d1.len() {
        let r1 = crc_register(d1.take(k));
        let r2 = crc_register(d2.take(k));
        let b = d1[k] as u32;
        assert(d1.take(k + 1).drop_last() =~= d1.take(k));
        assert(d2.take(k + 1).drop_last() =~= d2.take(k));
        assert(d1.take(k + 1).last() == d1[k]);
        assert(d2.take(k + 1).last() == d2[k]);
        lemma_crc_shift8_xor(r1 ^ b, r2 ^ b);
        assert((r1 ^ b) ^ (r2 ^ b) == r1 ^ r2 && r1 ^ r2 != 0) by (bit_vector)
            requires
                r1 != r2,
        ;
        lemma_crc_shift8_nonzero(r1 ^ r2);
        assert(crc_shift8(r1 ^ b) != crc_shift8(r2 ^ b)) by (bit_vector)
            requires
                crc_shift8((r1 ^ b) ^ (r2 ^ b)) == crc_shift8(r1 ^ b) ^ crc_shift8(r2 ^ b),
                crc_shift8((r1 ^ b) ^ (r2 ^ b)) != 0,
        ;
        lemma_crc_register_differ(d1, d2, k + 1);
    } else {
        assert(d1.take(k) =~= d1);
        assert(d2.take(k) =~= d2);
    }
}

/// Changing any one byte of the data changes its checksum.
pub proof fn lemma_crc32c_detects_byte_change(data: Seq<u8>, i: int, v: u8)
    requires
        0 <= i < data.len(),
        v != data[i],
    ensures
        crc32c_spec(data.update(i, v)) != crc32c_spec(data),
{
    reveal(crc32c_spec);
    let d2 = data.update(i, v);
    let r = crc_register(data.take(i));
    assert(d2.take(i) =~= data.take(i));
    assert(data.take(i + 1).drop_last() =~= data.take(i));
    assert(d2.take(i + 1).drop_last() =~= d2.take(i));
    assert(data.take(i + 1).last() == data[i]);
    assert(d2.take(i + 1).last() == v);
    let x = r ^ (data[i] as u32);
    let y = r ^ (v as u32);
    let dv = data[i];
    assert(x ^ y != 0) by (bit_vector)
        requires
            x == r ^ (dv as u32),
            y == r ^ (v as u32),
            v != dv,
    ;
    lemma_crc_shift8_xor(x, y);
    lemma_crc_shift8_nonzero(x ^ y);
    assert(crc_shift8(x) != crc_shift8(y)) by (bit_vector)
        requires
            crc_shift8(x ^ y) == crc_shift8(x) ^ crc_shift8(y),
            crc_shift8(x ^ y) != 0,
    ;
    lemma_crc_register_differ(data, d2, i + 1);
    let c1 = crc_register(data);
    let c2 = crc_register(d2);
    assert(!c1 != !c2) by (bit_vector)
        requires
            c1 != c2,
    ;
}

proof fn lemma_crc_shifts_eight(c: u32)
    ensures
        crc_shifts(c, 8) == crc_shift8(c),
{
    reveal_with_fuel(crc_shifts, 9);
}

/// Stepping a register through one byte equals shifting it by eight and
/// folding in the table entry of its low byte.
proof fn lemma_crc_byte_step(c: u32, b: u8)
    ensures
        (c >> 8u32) ^ crc_shift8((c ^ (b as u32)) & 0xFFu32) == crc_shift8(c ^ (b as u32)),
{
    let bb = b as u32;
    assert(bb < 256u32 ==> (c >> 8u32) ^ crc_shift8((c ^ bb) & 0xFFu32) == crc_shift8(c ^ bb))
        by (bit_vector);
}

/// The 256-entry lookup table, built on the stack: entry `i` is the
/// register `i` after eight bit steps.
fn crc32c_table() -> (table: [u32; 256])
    ensures
        forall|i: int| 0 <= i < 256 ==> #[trigger] table@[i] == crc_shift8(i as u32),
{
    let mut table: [u32; 256] = [0u32; 256];
    let mut i: u32 = 0;
    while i < 256
        invariant
            i <= 256,
            table@.len() == 256,
            forall|k: int| 0 <= k < i ==> #[trigger] table@[k] == crc_shift8(k as u32),
        decreases 256 - i,
    {
        let mut crc: u32 = i;
        let mut j: u32 = 0;
        while j < 8
            invariant
                j <= 8,
                crc == crc_shifts(i, j as nat),
            decreases 8 - j,
        {
            if crc & 1 != 0 {
                crc = (crc >> 1) ^ CRC32C_POLYNOMIAL;
            } else {
                crc = crc >> 1;
            }
            j = j + 1;
        }
        proof {
            lemma_crc_shifts_eight(i);
        }
        table[i as usize] = crc;
        i = i + 1;
    }
    table
}

/// Compute CRC32C checksum of the given data
pub fn crc32c(data: &[u8]) -> (crc: u32)
    ensures
        crc == crc32c_spec(data@),
{
    crc32c_sw(data)
}

/// Table-driven CRC32C: one table lookup per byte.
fn crc32c_sw(data: &[u8]) -> (crc: u32)
    ensures
        crc == crc32c_spec(data@),
{
    let table = crc32c_table();
    let mut crc: u32 = 0xFFFF_FFFF;
    let mut i: usize = 0;
    proof {
        assert(data@.take(0) =~= Seq::<u8>::empty());
    }
    while i < data.len()
        invariant
            i <= data@.len(),
            forall|k: int| 0 <= k < 256 ==> #[trigger] table@[k] == crc_shift8(k as u32),
            crc == crc_register(data@.take(i as int)),
        decreases data@.len() - i,
    {
        let byte = data[i];
        let low = (crc ^ (byte as u32)) & 0xFF;
        proof {
            assert(low <= 0xFFu32) by (bit_vector)
                requires
                    low == (crc ^ (byte as u32)) & 0xFFu32,
            ;
            lemma_crc_byte_step(crc, byte);
            let next = data@.take(i + 1);
            assert(next.drop_last() =~= data@.take(i as int));
            assert(next.last() == byte);
        }
        crc = (crc >> 8) ^ table[low as usize];
        i = i + 1;
    }
    proof {
        assert(data@.take(i as int) =~= data@);
        reveal(crc32c_spec);
    }
    !crc
}

/// Verify CRC32C checksum against expected value
pub fn verify_crc32c(data: &[u8], expected: u32) -> (ok: bool)
    ensures
        ok == (crc32c_spec(data@) == expected),
{
    crc32c(data) == expected
}

} // verus!
