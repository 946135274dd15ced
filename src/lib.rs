//! A resynchronising, checksummed frame codec for short sensor messages
//! carried over an unreliable byte transport.
//!
//! - [`obfuscation`]: reversible keyed whitening of payload bytes.
//! - [`crc`]: the CRC32C checksum.
//! - [`serialization`]: a fixed-capacity byte buffer and the frame writer.
//! - [`types`]: the frame layout and the message container.
//! - [`parse`]: the byte-at-a-time frame parser.
//! - [`framing`]: what the parser makes of whole streams, with its guarantees.

pub mod crc;
pub mod framing;
pub mod obfuscation;
pub mod parse;
pub mod serialization;
pub mod types;

pub use crate::crc::{crc32c, crc32c_update};
pub use crate::obfuscation::frobnicate;
pub use crate::parse::{Parser, ParserNeeds};
pub use crate::serialization::{serialize, BufferError, ByteBuffer};
pub use crate::types::{
    take_byte_u32, MessageContainer, PrimaryOpticalMessage, SensorHealthMessage, MAX_FRAME_SIZE,
    MAX_PAYLOAD, PREFIX,
};
