//! Typed codec hooks: a two-method capability that lets any fixed-width
//! value plug into the buffer's generic `put`/`take` call sites.  Every
//! implementation is a one-line forward to the width-specific accessor.

use vstd::prelude::*;

use crate::byte_buffer::{
    BufferOverflowError, BufferUnderflowError, ByteBuffer, PutResult, TakeResult,
};
use crate::codec::{decoding, encoding, lemma_encoding_len, signed_of, unsigned_of};
use crate::order::ByteOrder;

verus! {

/// A value that can lay itself down in a buffer.
pub trait BufferPut: Sized {
    /// The bytes this value puts on the wire in the given byte order.
    spec fn wire_bytes(self, big_endian: bool) -> Seq<u8>;

    /// Writes the value at the buffer's head: all of `wire_bytes`, or an
    /// overflow that leaves the buffer untouched.
    fn put<B: ByteOrder>(self, buffer: &mut ByteBuffer<B>) -> (r: PutResult)
        ensures
            final(buffer)@.limit == old(buffer)@.limit,
            final(buffer)@.bytes.len() == old(buffer)@.bytes.len(),
            self.wire_bytes(B::big()).len() <= old(buffer)@.remaining() ==> r is Ok
                && old(buffer)@.wrote(final(buffer)@, self.wire_bytes(B::big())),
            self.wire_bytes(B::big()).len() > old(buffer)@.remaining() ==> final(buffer)@
                == old(buffer)@ && r == Err::<(), BufferOverflowError>(
                (BufferOverflowError {
                    requested: self.wire_bytes(B::big()).len() as usize,
                    remaining: old(buffer)@.remaining() as usize,
                }),
            ),
    ;
}

/// A value that can read itself back out of a buffer.
pub trait BufferTake: Sized {
    /// How many bytes a value of this type occupies on the wire.
    spec fn wire_width() -> nat;

    /// The value that `bytes` spell in the given byte order.
    spec fn of_wire(big_endian: bool, bytes: Seq<u8>) -> Self;

    /// Reads one value at the buffer's head: exactly `wire_width` bytes, or
    /// an underflow that leaves the buffer untouched.
    fn take<B: ByteOrder>(buffer: &mut ByteBuffer<B>) -> (r: TakeResult<Self>)
        ensures
            final(buffer)@.bytes == old(buffer)@.bytes,
            final(buffer)@.limit == old(buffer)@.limit,
            Self::wire_width() <= old(buffer)@.remaining() ==> {
                &&& r is Ok
                &&& old(buffer)@.read_over(final(buffer)@, Self::wire_width() as int)
                &&& r->Ok_0 == Self::of_wire(
                    B::big(),
                    old(buffer)@.window(Self::wire_width() as int),
                )
            },
            Self::wire_width() > old(buffer)@.remaining() ==> final(buffer)@ == old(buffer)@ && r
                == Err::<Self, BufferUnderflowError>(
                (BufferUnderflowError {
                    requested: Self::wire_width() as usize,
                    remaining: old(buffer)@.remaining() as usize,
                }),
            ),
    ;
}

impl BufferPut for u8 {
    open spec fn wire_bytes(self, big_endian: bool) -> Seq<u8> {
        encoding(big_endian, self as nat, 1)
    }

    fn put<B: ByteOrder>(self, buffer: &mut ByteBuffer<B>) -> (r: PutResult) {
        proof {
            lemma_encoding_len(B::big(), self as nat, 1);
        }
        buffer.put_u8(self)
    }
}

impl BufferTake for u8 {
    open spec fn wire_width() -> nat {
        1
    }

    open spec fn of_wire(big_endian: bool, bytes: Seq<u8>) -> u8 {
        decoding(big_endian, bytes) as u8
    }

    fn take<B: ByteOrder>(buffer: &mut ByteBuffer<B>) -> (r: TakeResult<u8>) {
        buffer.take_u8()
    }
}

impl BufferPut for i8 {
    open spec fn wire_bytes(self, big_endian: bool) -> Seq<u8> {
        encoding(big_endian, unsigned_of(self as int, 1), 1)
    }

    fn put<B: ByteOrder>(self, buffer: &mut ByteBuffer<B>) -> (r: PutResult) {
        proof {
            lemma_encoding_len(B::big(), unsigned_of(self as int, 1), 1);
        }
        buffer.put_i8(self)
    }
}

impl BufferTake for i8 {
    open spec fn wire_width() -> nat {
        1
    }

    open spec fn of_wire(big_endian: bool, bytes: Seq<u8>) -> i8 {
        signed_of(decoding(big_endian, bytes), 1) as i8
    }

    fn take<B: ByteOrder>(buffer: &mut ByteBuffer<B>) -> (r: TakeResult<i8>) {
        buffer.take_i8()
    }
}

impl BufferPut for u16 {
    open spec fn wire_bytes(self, big_endian: bool) -> Seq<u8> {
        encoding(big_endian, self as nat, 2)
    }

    fn put<B: ByteOrder>(self, buffer: &mut ByteBuffer<B>) -> (r: PutResult) {
        proof {
            lemma_encoding_len(B::big(), self as nat, 2);
        }
        buffer.put_u16(self)
    }
}

impl BufferTake for u16 {
    open spec fn wire_width() -> nat {
        2
    }

    open spec fn of_wire(big_endian: bool, bytes: Seq<u8>) -> u16 {
        decoding(big_endian, bytes) as u16
    }

    fn take<B: ByteOrder>(buffer: &mut ByteBuffer<B>) -> (r: TakeResult<u16>) {
        buffer.take_u16()
    }
}

impl BufferPut for i16 {
    open spec fn wire_bytes(self, big_endian: bool) -> Seq<u8> {
        encoding(big_endian, unsigned_of(self as int, 2), 2)
    }

    fn put<B: ByteOrder>(self, buffer: &mut ByteBuffer<B>) -> (r: PutResult) {
        proof {
            lemma_encoding_len(B::big(), unsigned_of(self as int, 2), 2);
        }
        buffer.put_i16(self)
    }
}

impl BufferTake for i16 {
    open spec fn wire_width() -> nat {
        2
    }

    open spec fn of_wire(big_endian: bool, bytes: Seq<u8>) -> i16 {
        signed_of(decoding(big_endian, bytes), 2) as i16
    }

    fn take<B: ByteOrder>(buffer: &mut ByteBuffer<B>) -> (r: TakeResult<i16>) {
        buffer.take_i16()
    }
}

impl BufferPut for u32 {
    open spec fn wire_bytes(self, big_endian: bool) -> Seq<u8> {
        encoding(big_endian, self as nat, 4)
    }

    fn put<B: ByteOrder>(self, buffer: &mut ByteBuffer<B>) -> (r: PutResult) {
        proof {
            lemma_encoding_len(B::big(), self as nat, 4);
        }
        buffer.put_u32(self)
    }
}

impl BufferTake for u32 {
    open spec fn wire_width() -> nat {
        4
    }

    open spec fn of_wire(big_endian: bool, bytes: Seq<u8>) -> u32 {
        decoding(big_endian, bytes) as u32
    }

    fn take<B: ByteOrder>(buffer: &mut ByteBuffer<B>) -> (r: TakeResult<u32>) {
        buffer.take_u32()
    }
}

impl BufferPut for i32 {
    open spec fn wire_bytes(self, big_endian: bool) -> Seq<u8> {
        encoding(big_endian, unsigned_of(self as int, 4), 4)
    }

    fn put<B: ByteOrder>(self, buffer: &mut ByteBuffer<B>) -> (r: PutResult) {
        proof {
            lemma_encoding_len(B::big(), unsigned_of(self as int, 4), 4);
        }
        buffer.put_i32(self)
    }
}

impl BufferTake for i32 {
    open spec fn wire_width() -> nat {
        4
    }

    open spec fn of_wire(big_endian: bool, bytes: Seq<u8>) -> i32 {
        signed_of(decoding(big_endian, bytes), 4) as i32
    }

    fn take<B: ByteOrder>(buffer: &mut ByteBuffer<B>) -> (r: TakeResult<i32>) {
        buffer.take_i32()
    }
}

impl BufferPut for u64 {
    open spec fn wire_bytes(self, big_endian: bool) -> Seq<u8> {
        encoding(big_endian, self as nat, 8)
    }

    fn put<B: ByteOrder>(self, buffer: &mut ByteBuffer<B>) -> (r: PutResult) {
        proof {
            lemma_encoding_len(B::big(), self as nat, 8);
        }
        buffer.put_u64(self)
    }
}

impl BufferTake for u64 {
    open spec fn wire_width() -> nat {
        8
    }

    open spec fn of_wire(big_endian: bool, bytes: Seq<u8>) -> u64 {
        decoding(big_endian, bytes) as u64
    }

    fn take<B: ByteOrder>(buffer: &mut ByteBuffer<B>) -> (r: TakeResult<u64>) {
        buffer.take_u64()
    }
}

impl BufferPut for i64 {
    open spec fn wire_bytes(self, big_endian: bool) -> Seq<u8> {
        encoding(big_endian, unsigned_of(self as int, 8), 8)
    }

    fn put<B: ByteOrder>(self, buffer: &mut ByteBuffer<B>) -> (r: PutResult) {
        proof {
            lemma_encoding_len(B::big(), unsigned_of(self as int, 8), 8);
        }
        buffer.put_i64(self)
    }
}

impl BufferTake for i64 {
    open spec fn wire_width() -> nat {
        8
    }

    open spec fn of_wire(big_endian: bool, bytes: Seq<u8>) -> i64 {
        signed_of(decoding(big_endian, bytes), 8) as i64
    }

    fn take<B: ByteOrder>(buffer: &mut ByteBuffer<B>) -> (r: TakeResult<i64>) {
        buffer.take_i64()
    }
}

impl BufferPut for u128 {
    open spec fn wire_bytes(self, big_endian: bool) -> Seq<u8> {
        encoding(big_endian, self as nat, 16)
    }

    fn put<B: ByteOrder>(self, buffer: &mut ByteBuffer<B>) -> (r: PutResult) {
        proof {
            lemma_encoding_len(B::big(), self as nat, 16);
        }
        buffer.put_u128(self)
    }
}

impl BufferTake for u128 {
    open spec fn wire_width() -> nat {
        16
    }

    open spec fn of_wire(big_endian: bool, bytes: Seq<u8>) -> u128 {
        decoding(big_endian, bytes) as u128
    }

    fn take<B: ByteOrder>(buffer: &mut ByteBuffer<B>) -> (r: TakeResult<u128>) {
        buffer.take_u128()
    }
}

impl BufferPut for i128 {
    open spec fn wire_bytes(self, big_endian: bool) -> Seq<u8> {
        encoding(big_endian, unsigned_of(self as int, 16), 16)
    }

    fn put<B: ByteOrder>(self, buffer: &mut ByteBuffer<B>) -> (r: PutResult) {
        proof {
            lemma_encoding_len(B::big(), unsigned_of(self as int, 16), 16);
        }
        buffer.put_i128(self)
    }
}

impl BufferTake for i128 {
    open spec fn wire_width() -> nat {
        16
    }

    open spec fn of_wire(big_endian: bool, bytes: Seq<u8>) -> i128 {
        signed_of(decoding(big_endian, bytes), 16) as i128
    }

    fn take<B: ByteOrder>(buffer: &mut ByteBuffer<B>) -> (r: TakeResult<i128>) {
        buffer.take_i128()
    }
}

impl BufferPut for &[u8] {
    open spec fn wire_bytes(self, big_endian: bool) -> Seq<u8> {
        self@
    }

    fn put<B: ByteOrder>(self, buffer: &mut ByteBuffer<B>) -> (r: PutResult) {
        buffer.put_slice(self)
    }
}

} // verus!
