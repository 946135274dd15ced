//! Fixed-capacity byte staging and the frame serializer.

use vstd::prelude::*;
use crate::crc::{checksum, crc32c};
use crate::types::{
    frame_body, frame_bytes, prefix_seq, take_byte_u32, MessageContainer, MAX_FRAME_SIZE,
    MAX_PAYLOAD, PREFIX,
};

verus! {

/// Why an operation on a [`ByteBuffer`] or the serializer was refused.
#[derive(Debug, Clone, Copy, PartialEq, Eq, Structural)]
pub enum BufferError {
    /// The write would exceed the buffer's capacity.
    CapacityExceeded,
    /// A truncation of zero bytes, or of more bytes than are held.
    InvalidTruncate,
}

/// An append-only byte buffer of fixed capacity `SIZE`; never reallocates.
pub struct ByteBuffer<const SIZE: usize> {
    data: [u8; SIZE],
    end: usize,
}

impl<const SIZE: usize> View for ByteBuffer<SIZE> {
    type V = Seq<u8>;

    /// The bytes held so far.
    closed spec fn view(&self) -> Seq<u8> {
        self.data@.take(self.end as int)
    }
}

impl<const SIZE: usize> ByteBuffer<SIZE> {
    #[verifier::type_invariant]
    spec fn inv(self) -> bool {
        self.end <= SIZE
    }

    /// An empty buffer.
    pub fn new() -> (r: ByteBuffer<SIZE>)
        ensures
            r@ == Seq::<u8>::empty(),
    {
        let r = ByteBuffer { data: [0u8; SIZE], end: 0 };
        assert(r@ =~= Seq::<u8>::empty());
        r
    }

    /// Appends one byte; fails, leaving the buffer as it was, when it is full.
    pub fn append_byte(&mut self, byte: u8) -> (r: Result<(), BufferError>)
        ensures
            r is Ok <==> old(self)@.len() < SIZE,
            r is Ok ==> final(self)@ == old(self)@.push(byte),
            r is Err ==> r == Err::<(), BufferError>(BufferError::CapacityExceeded) && final(self)@
                == old(self)@,
            final(self)@.len() <= SIZE,
    {
        proof {
            use_type_invariant(&*self);
        }
        if self.end >= SIZE {
            return Err(BufferError::CapacityExceeded);
        }
        let ghost before = self@;
        self.data[self.end] = byte;
        self.end = self.end + 1;
        assert(self@ =~= before.push(byte));
        Ok(())
    }

    /// Appends all of `bytes`; fails, leaving the buffer as it was, when they
    /// do not all fit.
    pub fn append(&mut self, bytes: &[u8]) -> (r: Result<(), BufferError>)
        ensures
            r is Ok <==> old(self)@.len() + bytes@.len() <= SIZE,
            r is Ok ==> final(self)@ == old(self)@ + bytes@,
            r is Err ==> r == Err::<(), BufferError>(BufferError::CapacityExceeded) && final(self)@
                == old(self)@,
            final(self)@.len() <= SIZE,
    {
        proof {
            use_type_invariant(&*self);
        }
        if bytes.len() > SIZE - self.end {
            return Err(BufferError::CapacityExceeded);
        }
        let ghost before = self@;
        let mut i: usize = 0;
        while i < bytes.len()
            invariant
                i <= bytes@.len(),
                before.len() + bytes@.len() <= SIZE,
                self.end == before.len() + i,
                self@ == before + bytes@.take(i as int),
            decreases bytes@.len() - i,
        {
            proof {
                use_type_invariant(&*self);
            }
            let ghost prev = self@;
            self.data[self.end] = bytes[i];
            self.end = self.end + 1;
            assert(self@ =~= prev.push(bytes@[i as int]));
            assert(before + bytes@.take(i + 1) =~= prev.push(bytes@[i as int]));
            i += 1;
        }
        assert(bytes@.take(i as int) =~= bytes@);
        Ok(())
    }

    /// Removes the last `amount` bytes; fails, leaving the buffer as it was,
    /// when `amount` is zero or more than the buffer holds.
    pub fn truncate(&mut self, amount: usize) -> (r: Result<(), BufferError>)
        ensures
            r is Ok <==> 0 < amount <= old(self)@.len(),
            r is Ok ==> final(self)@ == old(self)@.take(old(self)@.len() - amount),
            r is Err ==> r == Err::<(), BufferError>(BufferError::InvalidTruncate) && final(self)@
                == old(self)@,
    {
        proof {
            use_type_invariant(&*self);
        }
        if amount == 0 || amount > self.end {
            return Err(BufferError::InvalidTruncate);
        }
        let ghost before = self@;
        self.end = self.end - amount;
        assert(self@ =~= before.take(before.len() - amount));
        Ok(())
    }

    /// The bytes held so far.
    pub fn get_result(&self) -> (r: &[u8])
        ensures
            r@ == self@,
    {
        proof {
            use_type_invariant(self);
        }
        &self.data[0..self.end]
    }
}

/// Builds the wire bytes of a frame carrying `message`: prefix, recipient,
/// counter, length field, payload, then the CRC32C checksum of all of those,
/// most significant byte first. Fails when the payload is longer than
/// [`MAX_PAYLOAD`].
pub fn serialize(message: &[u8], recipient: u8, counter: u8) -> (r: Result<
    ByteBuffer<MAX_FRAME_SIZE>,
    BufferError,
>)
    ensures
        r is Ok <==> message@.len() <= MAX_PAYLOAD,
        match r {
            Ok(buffer) => buffer@ == frame_bytes(message@, recipient, counter),
            Err(e) => e == BufferError::CapacityExceeded,
        },
{
    if message.len() > MAX_PAYLOAD {
        return Err(BufferError::CapacityExceeded);
    }
    let mut payload_buffer = [0u8; MAX_PAYLOAD];
    let mut i: usize = 0;
    while i < message.len()
        invariant
            i <= message@.len() <= MAX_PAYLOAD,
            payload_buffer@.len() == MAX_PAYLOAD,
            payload_buffer@.take(i as int) == message@.take(i as int),
        decreases message@.len() - i,
    {
        payload_buffer[i] = message[i];
        assert(payload_buffer@.take(i + 1) =~= message@.take(i + 1));
        i += 1;
    }
    assert(message@.take(i as int) =~= message@);
    let container = MessageContainer {
        recipient,
        message_num: counter,
        payload_length: message.len(),
        payload_buffer,
        checksum: 0,
    };
    let mut buffer = ByteBuffer::<MAX_FRAME_SIZE>::new();
    assert(PREFIX@ == prefix_seq());
    let _ = buffer.append(PREFIX.as_slice());
    let contents = container.get_byte_buffer();
    let _ = buffer.append(contents.get_result());
    assert(buffer@ =~= frame_body(message@, recipient, counter));
    let sum = crc32c(buffer.get_result());
    let _ = buffer.append_byte(take_byte_u32(sum, 0));
    let _ = buffer.append_byte(take_byte_u32(sum, 1));
    let _ = buffer.append_byte(take_byte_u32(sum, 2));
    let _ = buffer.append_byte(take_byte_u32(sum, 3));
    assert(buffer@ =~= frame_bytes(message@, recipient, counter));
    Ok(buffer)
}

} // verus!
