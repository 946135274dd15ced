//! The frame parser: a byte-at-a-time state machine that finds frames in a
//! live, possibly corrupted byte stream.
//!
//! Any byte that does not fit the frame format (a prefix mismatch, a length
//! over [`MAX_PAYLOAD`], a checksum mismatch) discards the frame in progress;
//! the search for the next prefix starts with the byte after it.
//!
//! A frame is delivered by the step that reads its last checksum byte; the
//! parser is then at once waiting for the next prefix, so there is no
//! separate "frame complete" state.
//!
//! The running checksum covers the prefix, header and payload bytes as they
//! arrive. The received checksum bytes are compared verbatim, most
//! significant first, against that checksum; they are not themselves folded
//! into it. This is the conventional check, and it is what makes a frame
//! written by [`crate::serialization::serialize`] decode.

use vstd::prelude::*;
use crate::crc::{checksum_update, crc32c_update_byte};
use crate::types::{
    be_byte, prefix_seq, take_byte_u32, MessageContainer, CHECKSUM_BYTES, MAX_PAYLOAD, PAYLOAD_LENGTH_BYTES,
    PREFIX, PREFIX_LEN,
};

verus! {

/// The part of a frame that the parser expects next.
#[derive(Debug, Clone, Copy, PartialEq, Eq, Structural)]
pub enum ParserNeeds {
    /// Byte `i` of the prefix.
    Prefix(usize),
    Recipient,
    Counter,
    /// Byte `i` of the length field.
    Length(usize),
    /// Byte `i` of the payload.
    Payload(usize),
    /// Byte `i` of the checksum.
    Checksum(usize),
}

/// What the parser has gathered of the frame in progress.
pub struct Progress {
    pub needs: ParserNeeds,
    pub recipient: u8,
    pub counter: u8,
    /// The payload length read so far.
    pub length: nat,
    /// The payload bytes received so far.
    pub payload: Seq<u8>,
    /// Checksum of the frame's bytes received so far, checksum bytes excepted.
    pub crc: u32,
}

/// The state of a fresh parser, and of one that has just finished or
/// discarded a frame.
pub open spec fn initial_progress() -> Progress {
    Progress {
        needs: ParserNeeds::Prefix(0),
        recipient: 0,
        counter: 0,
        length: 0,
        payload: Seq::empty(),
        crc: 0,
    }
}

/// The payload length after reading byte `index` of the length field.
pub open spec fn next_length(length: nat, index: int, byte: u8) -> nat {
    if index == 0 {
        byte as nat
    } else {
        length + 2 * (byte as nat)
    }
}

/// One transition: the next state, and the payload delivered when `byte`
/// completes a valid frame.
pub open spec fn step_spec(s: Progress, byte: u8) -> (Progress, Option<Seq<u8>>) {
    let crc = checksum_update(s.crc, seq![byte]);
    match s.needs {
        ParserNeeds::Prefix(i) => {
            if i < 4 && byte == prefix_seq()[i as int] {
                let needs = if i + 1 == 4 {
                    ParserNeeds::Recipient
                } else {
                    ParserNeeds::Prefix((i + 1) as usize)
                };
                (Progress { needs, crc, ..s }, None)
            } else {
                (initial_progress(), None)
            }
        },
        ParserNeeds::Recipient => (
            Progress { needs: ParserNeeds::Counter, recipient: byte, crc, ..s },
            None,
        ),
        ParserNeeds::Counter => (
            Progress { needs: ParserNeeds::Length(0), counter: byte, crc, ..s },
            None,
        ),
        ParserNeeds::Length(i) => {
            let length = next_length(s.length, i as int, byte);
            if length > MAX_PAYLOAD {
                (initial_progress(), None)
            } else {
                let needs = if i + 1 < 2 {
                    ParserNeeds::Length((i + 1) as usize)
                } else if length == 0 {
                    ParserNeeds::Checksum(0)
                } else {
                    ParserNeeds::Payload(0)
                };
                (Progress { needs, length, crc, ..s }, None)
            }
        },
        ParserNeeds::Payload(i) => {
            let needs = if i + 1 < s.length {
                ParserNeeds::Payload((i + 1) as usize)
            } else {
                ParserNeeds::Checksum(0)
            };
            (Progress { needs, payload: s.payload.push(byte), crc, ..s }, None)
        },
        ParserNeeds::Checksum(i) => {
            if byte != be_byte(s.crc, i as int) {
                (initial_progress(), None)
            } else if i < 3 {
                (Progress { needs: ParserNeeds::Checksum((i + 1) as usize), ..s }, None)
            } else {
                (initial_progress(), Some(s.payload))
            }
        },
    }
}

/// The payload handed out by [`Parser::step`], as a sequence.
pub open spec fn delivered(r: Option<Vec<u8>>) -> Option<Seq<u8>> {
    match r {
        Some(v) => Some(v@),
        None => None,
    }
}

/// Reads a stream of bytes and emits the payloads of the valid frames in it.
///
/// The state is the part of a frame expected next. When a byte is
/// incompatible with the frame format, the bytes read so far are discarded
/// and the parser searches for the start of the next frame.
pub struct Parser {
    parsed: MessageContainer,
    state: ParserNeeds,
}

impl View for Parser {
    type V = Progress;

    closed spec fn view(&self) -> Progress {
        Progress {
            needs: self.state,
            recipient: self.parsed.recipient,
            counter: self.parsed.message_num,
            length: self.parsed.payload_length as nat,
            payload: self.parsed.payload_buffer@.take(self.received() as int),
            crc: self.parsed.checksum,
        }
    }
}

impl Parser {
    #[verifier::type_invariant]
    spec fn inv(self) -> bool {
        &&& self.parsed.payload_length <= MAX_PAYLOAD
        &&& match self.state {
            ParserNeeds::Prefix(i) => i < 4,
            ParserNeeds::Length(i) => i < 2,
            ParserNeeds::Payload(i) => i < self.parsed.payload_length,
            ParserNeeds::Checksum(i) => i < 4,
            _ => true,
        }
    }

    /// Number of payload bytes held in the buffer.
    closed spec fn received(self) -> nat {
        match self.state {
            ParserNeeds::Payload(i) => i as nat,
            ParserNeeds::Checksum(_) => self.parsed.payload_length as nat,
            _ => 0,
        }
    }

    /// A parser waiting for the first prefix byte.
    pub fn new() -> (r: Parser)
        ensures
            r@ == initial_progress(),
    {
        let r = Parser { parsed: MessageContainer::default(), state: ParserNeeds::Prefix(0) };
        assert(r@.payload =~= Seq::<u8>::empty());
        r
    }

    /// The part of a frame expected next.
    pub fn state(&self) -> (r: ParserNeeds)
        ensures
            r == self@.needs,
    {
        self.state
    }

    /// Discards the frame in progress and waits for the first prefix byte.
    pub fn reset(&mut self)
        ensures
            final(self)@ == initial_progress(),
    {
        proof {
            use_type_invariant(&*self);
        }
        self.state = ParserNeeds::Prefix(0);
        self.parsed.payload_length = 0;
        self.parsed.recipient = 0;
        self.parsed.message_num = 0;
        self.parsed.checksum = 0;
        self.parsed.payload_buffer = [0u8; MAX_PAYLOAD];
        assert(self@.payload =~= Seq::<u8>::empty());
    }

    /// Feeds one byte. Returns the payload of the frame that this byte
    /// completes, if it completes a valid one.
    pub fn step(&mut self, byte: u8) -> (r: Option<Vec<u8>>)
        ensures
            (final(self)@, delivered(r)) == step_spec(old(self)@, byte),
    {
        proof {
            use_type_invariant(&*self);
        }
        let crc = crc32c_update_byte(self.parsed.checksum, byte);
        match self.state {
            ParserNeeds::Prefix(index) => {
                assert(PREFIX@ == prefix_seq());
                if byte == PREFIX[index] {
                    self.parsed.checksum = crc;
                    self.state = if index + 1 == PREFIX_LEN {
                        ParserNeeds::Recipient
                    } else {
                        ParserNeeds::Prefix(index + 1)
                    };
                } else {
                    self.reset();
                }
                None
            },
            ParserNeeds::Recipient => {
                self.parsed.checksum = crc;
                self.parsed.recipient = byte;
                self.state = ParserNeeds::Counter;
                None
            },
            ParserNeeds::Counter => {
                self.parsed.checksum = crc;
                self.parsed.message_num = byte;
                self.state = ParserNeeds::Length(0);
                None
            },
            ParserNeeds::Length(index) => {
                let length = if index == 0 {
                    byte as usize
                } else {
                    assert(((byte as usize) << 1usize) == 2 * (byte as usize)) by (bit_vector);
                    self.parsed.payload_length + ((byte as usize) << 1usize)
                };
                if length > MAX_PAYLOAD {
                    self.reset();
                } else {
                    self.parsed.checksum = crc;
                    self.parsed.payload_length = length;
                    self.state = if index + 1 < PAYLOAD_LENGTH_BYTES {
                        ParserNeeds::Length(index + 1)
                    } else if length == 0 {
                        ParserNeeds::Checksum(0)
                    } else {
                        ParserNeeds::Payload(0)
                    };
                }
                None
            },
            ParserNeeds::Payload(index) => {
                let ghost before = self@.payload;
                self.parsed.checksum = crc;
                self.parsed.payload_buffer[index] = byte;
                self.state = if index + 1 < self.parsed.payload_length {
                    ParserNeeds::Payload(index + 1)
                } else {
                    ParserNeeds::Checksum(0)
                };
                assert(self@.payload =~= before.push(byte));
                None
            },
            ParserNeeds::Checksum(index) => {
                if byte != take_byte_u32(self.parsed.checksum, index) {
                    self.reset();
                    None
                } else if index + 1 < CHECKSUM_BYTES {
                    self.state = ParserNeeds::Checksum(index + 1);
                    None
                } else {
                    let payload = vstd::slice::slice_to_vec(self.parsed.get_payload());
                    self.reset();
                    Some(payload)
                }
            },
        }
    }
}

} // verus!
