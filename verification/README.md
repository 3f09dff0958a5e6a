# minibit

A compact binary wire protocol for low-latency messaging, written in Verus.
Frames are a 16-byte little-endian header, a body and a CRC32C checksum;
bodies hold fixed-width fields, an optional presence bitmap and
length-prefixed (LEB128) byte fields.

Layout:

- `src/wire.rs`: byte splicing and little-endian integers (specs, readers, writers)
- `src/varint.rs`: LEB128 encoding and decoding
- `src/crc32c.rs`: table-driven CRC32C, proved against the bitwise definition
- `src/bitmap.rs`: presence bitmaps
- `src/frame.rs`: the frame header and the layout of a whole frame
- `src/encoder.rs`, `src/decoder.rs`: frame encoder and zero-copy decoder
- `src/messages/`: the trade and quote message schemas
- `tests/`: the test suite
- `app/`: a displayable error type and timing benchmarks (plain Rust)

Every function states in its contract the bytes it writes or the values it
reads. The proof functions named `lemma_*_roundtrip` state that decoding
what was encoded gives it back (varints, bitmaps, headers, frames, trade
and quote messages); `lemma_frame_corruption_detected` states that changing
any byte of a frame outside its length field makes verification fail.
