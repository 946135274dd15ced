//! Sensor message types, the in-memory message container and the wire
//! layout of one frame.
//!
//! A frame is, in order and without padding: the prefix `AA AA 55 55`, the
//! recipient, the counter, a two-byte length field, the payload (at most
//! [`MAX_PAYLOAD`] bytes) and the CRC32C checksum of everything before it,
//! most significant byte first.
//!
//! The length field is read as `byte0 + (byte1 << 1)`. With payloads of at
//! most 200 bytes the first byte alone spans the valid range, so the writer
//! always sends the length in the first byte and zero in the second.

use vstd::prelude::*;
use crate::crc::checksum;
use crate::serialization::ByteBuffer;

verus! {

/// The largest payload a frame can carry.
pub const MAX_PAYLOAD: usize = 200;

/// Number of bytes in the length field.
pub const PAYLOAD_LENGTH_BYTES: usize = 2;

/// Number of bytes in the checksum field.
pub const CHECKSUM_BYTES: usize = 4;

/// Number of bytes in the frame prefix.
pub const PREFIX_LEN: usize = 4;

/// The largest frame on the wire: prefix, recipient, counter, length field,
/// payload and checksum.
pub const MAX_FRAME_SIZE: usize = 212;

/// Number of samples per channel in a [`PrimaryOpticalMessage`].
pub const OPTICAL_SAMPLES: usize = 10;

/// The synchronisation word that starts every frame.
pub const PREFIX: [u8; 4] = [0xaa, 0xaa, 0x55, 0x55];

/// The synchronisation word as a sequence.
pub open spec fn prefix_seq() -> Seq<u8> {
    seq![0xaau8, 0xaau8, 0x55u8, 0x55u8]
}

/// The two length bytes written for a payload of `n` bytes.
pub open spec fn length_field(n: nat) -> Seq<u8> {
    seq![n as u8, 0u8]
}

/// Byte `index` of `number`, most significant first.
pub open spec fn be_byte(number: u32, index: int) -> u8 {
    (number >> ((8 * (3 - index)) as u32)) as u8
}

/// The four bytes of `number`, most significant first.
pub open spec fn be_bytes(number: u32) -> Seq<u8> {
    seq![be_byte(number, 0), be_byte(number, 1), be_byte(number, 2), be_byte(number, 3)]
}

/// Recipient, counter, length field and payload: the bytes that
/// [`MessageContainer::get_byte_buffer`] writes.
pub open spec fn header_and_payload(payload: Seq<u8>, recipient: u8, counter: u8) -> Seq<u8> {
    seq![recipient, counter] + length_field(payload.len()) + payload
}

/// Everything of a frame that its checksum covers.
pub open spec fn frame_body(payload: Seq<u8>, recipient: u8, counter: u8) -> Seq<u8> {
    prefix_seq() + header_and_payload(payload, recipient, counter)
}

/// The wire bytes of the frame carrying `payload`.
pub open spec fn frame_bytes(payload: Seq<u8>, recipient: u8, counter: u8) -> Seq<u8> {
    let body = frame_body(payload, recipient, counter);
    body + be_bytes(checksum(body))
}

/// Byte `index` of `number`, most significant first.
pub fn take_byte_u32(number: u32, index: usize) -> (r: u8)
    requires
        index < 4,
    ensures
        r == be_byte(number, index as int),
{
    (number >> ((8 * (3 - index)) as u32)) as u8
}

/// Sensor version and any alertable conditions, such as over-temperature.
#[derive(Copy, Clone, Debug)]
pub struct SensorHealthMessage {
    software_commit: [u8; 20],
    hardware_version: (u8, u8, u8),
    temperature_ok: bool,
}

/// LED measurements.
#[derive(Copy, Clone, Debug)]
pub struct PrimaryOpticalMessage {
    passive: [u16; OPTICAL_SAMPLES],
    active: [u16; OPTICAL_SAMPLES],
}

impl PrimaryOpticalMessage {
    /// Number of samples per channel.
    pub const LENGTH: usize = OPTICAL_SAMPLES;
}

/// One message being decoded or encoded. Only the first `payload_length`
/// bytes of `payload_buffer` are meaningful.
#[derive(Copy, Clone, Debug)]
pub struct MessageContainer {
    pub recipient: u8,
    pub message_num: u8,
    pub payload_length: usize,
    pub payload_buffer: [u8; MAX_PAYLOAD],
    pub checksum: u32,
}

impl MessageContainer {
    pub const PAYLOAD_LENGTH_BYTES: usize = PAYLOAD_LENGTH_BYTES;

    pub const MAX_PAYLOAD: usize = MAX_PAYLOAD;

    pub const MAX_CONTAINER_SIZE: usize = MAX_FRAME_SIZE;

    /// The meaningful part of the payload buffer.
    pub open spec fn payload(&self) -> Seq<u8> {
        self.payload_buffer@.take(self.payload_length as int)
    }

    /// Recipient, counter, length field and payload, in wire order.
    pub fn get_byte_buffer(&self) -> (r: ByteBuffer<MAX_FRAME_SIZE>)
        requires
            self.payload_length <= MAX_PAYLOAD,
        ensures
            r@ == header_and_payload(self.payload(), self.recipient, self.message_num),
    {
        let mut buffer = ByteBuffer::<MAX_FRAME_SIZE>::new();
        let _ = buffer.append_byte(self.recipient);
        let _ = buffer.append_byte(self.message_num);
        let _ = buffer.append_byte(self.payload_length as u8);
        let _ = buffer.append_byte(0);
        let _ = buffer.append(self.get_payload());
        assert(buffer@ =~= header_and_payload(self.payload(), self.recipient, self.message_num));
        buffer
    }

    /// The meaningful part of the payload buffer.
    pub fn get_payload(&self) -> (r: &[u8])
        requires
            self.payload_length <= MAX_PAYLOAD,
        ensures
            r@ == self.payload(),
    {
        &self.payload_buffer[0..self.payload_length]
    }
}

impl Default for MessageContainer {
    fn default() -> (r: Self)
        ensures
            r.recipient == 0,
            r.message_num == 0,
            r.payload_length == 0,
            r.payload_buffer@ == Seq::new(MAX_PAYLOAD as nat, |i: int| 0u8),
            r.checksum == 0,
    {
        let r = MessageContainer {
            recipient: 0,
            message_num: 0,
            payload_length: 0,
            payload_buffer: [0u8; MAX_PAYLOAD],
            checksum: 0,
        };
        assert(r.payload_buffer@ =~= Seq::new(MAX_PAYLOAD as nat, |i: int| 0u8));
        r
    }
}

} // verus!
