//! MiniBit: a compact binary wire protocol for low-latency messaging.
//!
//! A frame is a 16-byte little-endian header, a body of `len` bytes and a
//! CRC32C (Castagnoli) checksum of header and body:
//!
//! ```text
//! +------------+---------+---------+-----------+-----------+---------+
//! | Magic u16  | Ver u8  | Flags u8| MsgType u16| Seq u32  | Len u32 |
//! +------------+---------+---------+-----------+-----------+---------+
//! | Body (Len bytes)                                                  |
//! | CRC32C u32 (Castagnoli)                                           |
//! +-------------------------------------------------------------------+
//! ```
//!
//! Every function of the library states in its contract the bytes it
//! writes or the values it reads, over the spec functions of `wire`,
//! `varint`, `crc32c` and `frame`.
#![allow(unused_imports)]

pub mod bitmap;
pub mod crc32c;
pub mod decoder;
pub mod encoder;
pub mod error;
pub mod frame;
pub mod messages;
pub mod varint;
pub mod wire;

pub use decoder::{BodyCursor, FrameDecoder};
pub use encoder::FrameEncoder;
pub use error::Error;
pub use frame::{FrameFlags, FrameHeader};

use vstd::prelude::*;

verus! {

/// Magic number for frame identification
pub const FRAME_MAGIC: u16 = 0xFEED;

/// Current protocol version
pub const PROTOCOL_VERSION: u8 = 1;

/// Minimum frame size (header + crc32c)
pub const MIN_FRAME_SIZE: usize = 18;

/// Maximum frame size (16MB safety limit)
pub const MAX_FRAME_SIZE: usize = 16 * 1024 * 1024;

} // verus!
