//! The cursor buffer: a contiguous byte region with a read/write head
//! (`position`) and a logical end marker (`limit`), `0 <= position <= limit
//! <= capacity` at all times.  Writes and reads are all-or-nothing: an
//! operation that would cross `limit` fails and leaves the buffer untouched.

use std::marker::PhantomData;

use vstd::prelude::*;

use crate::codec::{
    decoding, encoding, lemma_encoding_len, lemma_pow256_increases, lemma_pow256_values,
    lemma_unsigned_of_add_multiple, lemma_unsigned_of_in_range, pow256, signed_of, spliced,
    unsigned_of,
};
use crate::order::ByteOrder;
use crate::traits::{BufferPut, BufferTake};

verus! {

/// What a write reports: nothing on success, an overflow on failure.
pub type PutResult = Result<(), BufferOverflowError>;

/// What a read reports: the value on success, an underflow on failure.
pub type TakeResult<T> = Result<T, BufferUnderflowError>;

/// Rejection of an index move that would leave the permitted range.
#[derive(Clone, Copy, Debug, PartialEq, Eq, Structural)]
pub enum ByteBufferError {
    /// The rejected index, with the inclusive range it had to fall in.
    IndexOutOfBounds { index: usize, low: usize, high: usize },
}

/// A write was refused: it asked for more bytes than remain before `limit`.
#[derive(Clone, Copy, Debug, PartialEq, Eq, Structural)]
pub struct BufferOverflowError {
    pub requested: usize,
    pub remaining: usize,
}

/// A read was refused: it asked for more bytes than remain before `limit`.
#[derive(Clone, Copy, Debug, PartialEq, Eq, Structural)]
pub struct BufferUnderflowError {
    pub requested: usize,
    pub remaining: usize,
}

/// The abstract state of a buffer: its bytes and the two indices.
pub ghost struct BufferModel {
    pub bytes: Seq<u8>,
    pub position: int,
    pub limit: int,
}

impl BufferModel {
    /// The fixed size of the region.
    pub open spec fn capacity(self) -> int {
        self.bytes.len() as int
    }

    /// How many bytes may still be written or read before `limit`.
    pub open spec fn remaining(self) -> int {
        self.limit - self.position
    }

    /// The invariant every operation preserves.
    pub open spec fn wf(self) -> bool {
        0 <= self.position <= self.limit <= self.capacity()
    }

    /// The next `width` bytes at the head.
    pub open spec fn window(self, width: int) -> Seq<u8> {
        self.bytes.subrange(self.position, self.position + width)
    }

    /// `post` is `self` after `patch` was written at the head and the head
    /// advanced over it.
    pub open spec fn wrote(self, post: BufferModel, patch: Seq<u8>) -> bool {
        &&& post.bytes == spliced(self.bytes, self.position, patch)
        &&& post.position == self.position + patch.len()
        &&& post.limit == self.limit
    }

    /// `post` is `self` after the head advanced over `width` bytes read.
    pub open spec fn read_over(self, post: BufferModel, width: int) -> bool {
        &&& post.bytes == self.bytes
        &&& post.position == self.position + width
        &&& post.limit == self.limit
    }
}

/// Round trip at the buffer level: writing a `width`-byte field and flipping
/// leaves a buffer whose head sits at zero with exactly the written bytes
/// before its limit; when the write began at the start of the region, reading
/// the same width back yields the value exactly, and the read advances the
/// head precisely as far as the write did.
pub proof fn lemma_buffer_round_trip(
    pre: BufferModel,
    post: BufferModel,
    big_endian: bool,
    value: nat,
    width: nat,
)
    requires
        pre.wf(),
        width <= pre.remaining(),
        value < pow256(width),
        pre.wrote(post, encoding(big_endian, value, width)),
    ensures
        post.position == pre.position + width,
        (BufferModel { bytes: post.bytes, position: 0, limit: post.position }).remaining()
            == pre.position + width,
        pre.position == 0 ==> decoding(
            big_endian,
            (BufferModel { bytes: post.bytes, position: 0, limit: post.position }).window(
                width as int,
            ),
        ) == value,
{
    let patch = encoding(big_endian, value, width);
    lemma_encoding_len(big_endian, value, width);
    crate::codec::lemma_spliced_parts(pre.bytes, pre.position, patch);
    if pre.position == 0 {
        let flipped = BufferModel { bytes: post.bytes, position: 0, limit: post.position };
        assert(flipped.window(width as int) =~= patch);
        crate::codec::lemma_encoding_decoding(big_endian, value, width);
    }
}

/// The cursor buffer, generic over its byte order.
pub struct ByteBuffer<B: ByteOrder> {
    buffer: Vec<u8>,
    position: usize,
    limit: usize,
    byte_order: PhantomData<B>,
}

impl<B: ByteOrder> View for ByteBuffer<B> {
    type V = BufferModel;

    closed spec fn view(&self) -> BufferModel {
        BufferModel {
            bytes: self.buffer@,
            position: self.position as int,
            limit: self.limit as int,
        }
    }
}

impl<B: ByteOrder> ByteBuffer<B> {
    /// The buffer's indices never leave `0 <= position <= limit <= capacity`.
    #[verifier::type_invariant]
    pub open spec fn inv(self) -> bool {
        self@.wf()
    }

    /// A buffer that owns `vec` as its region, ready for a full write phase.
    pub fn wrap(vec: Vec<u8>) -> (buf: Self)
        ensures
            buf@.bytes == vec@,
            buf@.position == 0,
            buf@.limit == vec@.len(),
    {
        ByteBuffer { limit: vec.len(), buffer: vec, position: 0, byte_order: PhantomData }
    }

    /// A zero-filled buffer of `capacity` bytes.
    pub fn allocate(capacity: usize) -> (buf: Self)
        ensures
            buf@.bytes == Seq::new(capacity as nat, |i: int| 0u8),
            buf@.position == 0,
            buf@.limit == capacity,
    {
        let mut region: Vec<u8> = Vec::new();
        while region.len() < capacity
            invariant
                region@.len() <= capacity,
                region@ == Seq::new(region@.len(), |i: int| 0u8),
            decreases capacity - region.len(),
        {
            region.push(0);
            proof {
                assert(region@ =~= Seq::new(region@.len(), |i: int| 0u8));
            }
        }
        Self::wrap(region)
    }

    /// A buffer over a copy of `slice`.
    pub fn copy_from(slice: &[u8]) -> (buf: Self)
        ensures
            buf@.bytes == slice@,
            buf@.position == 0,
            buf@.limit == slice@.len(),
    {
        Self::wrap(vstd::slice::slice_to_vec(slice))
    }

    /// The fixed size of the region.
    pub fn get_capacity(&self) -> (n: usize)
        ensures
            n == self@.capacity(),
    {
        self.buffer.len()
    }

    /// How many bytes may still be written or read before `limit`.
    pub fn get_remaining(&self) -> (n: usize)
        ensures
            n == self@.remaining(),
    {
        proof {
            use_type_invariant(self);
        }
        self.limit - self.position
    }

    /// The next index to be read or written.
    pub fn get_position(&self) -> (n: usize)
        ensures
            n == self@.position,
    {
        self.position
    }

    /// The boundary past which no read or write may occur.
    pub fn get_limit(&self) -> (n: usize)
        ensures
            n == self@.limit,
    {
        self.limit
    }

    /// Whether any bytes remain before `limit`.
    pub fn has_remaining(&self) -> (b: bool)
        ensures
            b == (self@.remaining() > 0),
    {
        self.position < self.limit
    }

    /// Moves the head to `position`; refused beyond `limit`.
    pub fn set_position(&mut self, position: usize) -> (r: Result<(), ByteBufferError>)
        ensures
            final(self)@.bytes == old(self)@.bytes,
            final(self)@.limit == old(self)@.limit,
            position <= old(self)@.limit ==> r is Ok && final(self)@.position == position,
            position > old(self)@.limit ==> final(self)@.position == old(self)@.position && r
                == Err::<(), ByteBufferError>(
                (ByteBufferError::IndexOutOfBounds {
                    index: position,
                    low: 0,
                    high: old(self)@.limit as usize,
                }),
            ),
    {
        if position > self.limit {
            Err(ByteBufferError::IndexOutOfBounds { index: position, low: 0, high: self.limit })
        } else {
            proof {
                use_type_invariant(&*self);
            }
            self.position = position;
            Ok(())
        }
    }

    /// Moves `limit`; refused beyond the capacity.  A `limit` below the
    /// current head pulls the head down to it.
    pub fn set_limit(&mut self, limit: usize) -> (r: Result<(), ByteBufferError>)
        ensures
            final(self)@.bytes == old(self)@.bytes,
            limit <= old(self)@.capacity() ==> {
                &&& r is Ok
                &&& final(self)@.limit == limit
                &&& final(self)@.position == if old(self)@.position > limit {
                    limit as int
                } else {
                    old(self)@.position
                }
            },
            limit > old(self)@.capacity() ==> final(self)@ == old(self)@ && r == Err::<
                (),
                ByteBufferError,
            >(
                (ByteBufferError::IndexOutOfBounds {
                    index: limit,
                    low: 0,
                    high: old(self)@.capacity() as usize,
                }),
            ),
    {
        if limit > self.buffer.len() {
            Err(
                ByteBufferError::IndexOutOfBounds {
                    index: limit,
                    low: 0,
                    high: self.buffer.len(),
                },
            )
        } else {
            proof {
                use_type_invariant(&*self);
            }
            if self.position > limit {
                self.position = limit;
            }
            self.limit = limit;
            Ok(())
        }
    }

    /// Ends a write phase: bounds reading to what was written and rewinds the
    /// head (`limit = position`, `position = 0`).
    pub fn flip(&mut self)
        ensures
            final(self)@.bytes == old(self)@.bytes,
            final(self)@.limit == old(self)@.position,
            final(self)@.position == 0,
    {
        proof {
            use_type_invariant(&*self);
        }
        self.limit = self.position;
        self.position = 0;
    }

    /// Discards all state: reopens the whole region for writing.
    pub fn clear(&mut self)
        ensures
            final(self)@.bytes == old(self)@.bytes,
            final(self)@.limit == old(self)@.capacity(),
            final(self)@.position == 0,
    {
        proof {
            use_type_invariant(&*self);
        }
        self.position = 0;
        self.limit = self.buffer.len();
    }

    /// Keeps the unread tail: shifts the bytes in `[position, limit)` to the
    /// front, puts the head after them, and reopens the whole region.
    pub fn compact(&mut self)
        ensures
            final(self)@.bytes.len() == old(self)@.bytes.len(),
            final(self)@.position == old(self)@.remaining(),
            final(self)@.limit == old(self)@.capacity(),
            forall|i: int|
                0 <= i < old(self)@.remaining() ==> final(self)@.bytes[i] == old(
                    self,
                )@.bytes[old(self)@.position + i],
            forall|i: int|
                old(self)@.remaining() <= i < old(self)@.bytes.len() ==> final(self)@.bytes[i]
                    == old(self)@.bytes[i],
    {
        proof {
            use_type_invariant(&*self);
        }
        let tail = self.limit - self.position;
        let mut i: usize = 0;
        while i < tail
            invariant
                0 <= i <= tail,
                tail == old(self)@.remaining(),
                self.position == old(self)@.position,
                self.limit == old(self)@.limit,
                self@.wf(),
                self.buffer@.len() == old(self)@.bytes.len(),
                forall|j: int| 0 <= j < i ==> self.buffer@[j] == old(self)@.bytes[self@.position + j],
                forall|j: int| i <= j < self.buffer@.len() ==> self.buffer@[j] == old(self)@.bytes[j],
            decreases tail - i,
        {
            let b = self.buffer[self.position + i];
            self.buffer[i] = b;
            i = i + 1;
        }
        self.position = tail;
        self.limit = self.buffer.len();
    }

    /// Bounded write: lays the `width`-byte encoding of `value` down at the
    /// head and advances over it, or refuses without touching anything.
    fn put_uint(&mut self, width: usize, value: u128) -> (r: PutResult)
        requires
            1 <= width <= 16,
        ensures
            final(self)@.limit == old(self)@.limit,
            final(self)@.bytes.len() == old(self)@.bytes.len(),
            width <= old(self)@.remaining() ==> r is Ok && old(self)@.wrote(
                final(self)@,
                encoding(B::big(), value as nat, width as nat),
            ),
            width > old(self)@.remaining() ==> final(self)@ == old(self)@ && r == Err::<
                (),
                BufferOverflowError,
            >((BufferOverflowError { requested: width, remaining: old(self)@.remaining() as usize })),
    {
        proof {
            use_type_invariant(&*self);
        }
        let remaining = self.limit - self.position;
        if width > remaining {
            return Err(BufferOverflowError { requested: width, remaining });
        }
        let ghost target = encoding(B::big(), value as nat, width as nat);
        proof {
            lemma_encoding_len(B::big(), value as nat, width as nat);
        }
        let pos = self.position;
        let mut v: u128 = value;
        if B::is_big() {
            let mut i: usize = width;
            while i > 0
                invariant
                    B::big(),
                    0 <= i <= width <= 16,
                    self.position == old(self)@.position,
                    self.limit == old(self)@.limit,
                    pos == self.position,
                    self@.wf(),
                    width <= self@.remaining(),
                    self.buffer@.len() == old(self)@.bytes.len(),
                    target == encoding(B::big(), value as nat, width as nat),
                    target.len() == width,
                    target =~= encoding(B::big(), v as nat, i as nat) + self.buffer@.subrange(
                        pos + i,
                        pos + width,
                    ),
                    forall|j: int|
                        0 <= j < self.buffer@.len() && !(pos + i <= j < pos + width)
                            ==> self.buffer@[j] == old(self)@.bytes[j],
                decreases i,
            {
                i = i - 1;
                let byte = (v % 256) as u8;
                let ghost prev = self.buffer@;
                let ghost vprev = v as nat;
                self.buffer[pos + i] = byte;
                v = v / 256;
                proof {
                    lemma_encoding_len(B::big(), v as nat, i as nat);
                    assert(encoding(B::big(), vprev, (i + 1) as nat) == encoding(
                        B::big(),
                        vprev / 256,
                        i as nat,
                    ) + seq![(vprev % 256) as u8]);
                    assert(self.buffer@.subrange(pos + i, pos + width) =~= seq![byte]
                        + prev.subrange(pos + i + 1, pos + width));
                    assert(target =~= encoding(B::big(), v as nat, i as nat)
                        + self.buffer@.subrange(pos + i, pos + width));
                }
            }
        } else {
            let mut i: usize = 0;
            while i < width
                invariant
                    !B::big(),
                    0 <= i <= width <= 16,
                    self.position == old(self)@.position,
                    self.limit == old(self)@.limit,
                    pos == self.position,
                    self@.wf(),
                    width <= self@.remaining(),
                    self.buffer@.len() == old(self)@.bytes.len(),
                    target == encoding(B::big(), value as nat, width as nat),
                    target.len() == width,
                    target =~= self.buffer@.subrange(pos as int, pos + i) + encoding(
                        B::big(),
                        v as nat,
                        (width - i) as nat,
                    ),
                    forall|j: int|
                        0 <= j < self.buffer@.len() && !(pos <= j < pos + i) ==> self.buffer@[j]
                            == old(self)@.bytes[j],
                decreases width - i,
            {
                let byte = (v % 256) as u8;
                let ghost prev = self.buffer@;
                let ghost vprev = v as nat;
                self.buffer[pos + i] = byte;
                v = v / 256;
                i = i + 1;
                proof {
                    lemma_encoding_len(B::big(), v as nat, (width - i) as nat);
                    assert(encoding(B::big(), vprev, (width - i + 1) as nat) == seq![
                        (vprev % 256) as u8,
                    ] + encoding(B::big(), vprev / 256, (width - i) as nat));
                    assert(self.buffer@.subrange(pos as int, pos + i) =~= prev.subrange(
                        pos as int,
                        pos + i - 1,
                    ) + seq![byte]);
                    assert(target =~= self.buffer@.subrange(pos as int, pos + i) + encoding(
                        B::big(),
                        v as nat,
                        (width - i) as nat,
                    ));
                }
            }
        }
        proof {
            assert(self.buffer@.subrange(pos as int, pos + width) =~= target);
            assert(self.buffer@ =~= spliced(old(self)@.bytes, pos as int, target));
        }
        self.position = pos + width;
        Ok(())
    }

    /// Bounded read: decodes the `width` bytes at the head and advances over
    /// them, or refuses without touching anything.
    fn take_uint(&mut self, width: usize) -> (r: TakeResult<u128>)
        requires
            1 <= width <= 16,
        ensures
            final(self)@.bytes == old(self)@.bytes,
            final(self)@.limit == old(self)@.limit,
            width <= old(self)@.remaining() ==> {
                &&& r is Ok
                &&& old(self)@.read_over(final(self)@, width as int)
                &&& r->Ok_0 as nat == decoding(B::big(), old(self)@.window(width as int))
                &&& (r->Ok_0 as nat) < pow256(width as nat)
            },
            width > old(self)@.remaining() ==> final(self)@ == old(self)@ && r == Err::<
                u128,
                BufferUnderflowError,
            >((BufferUnderflowError { requested: width, remaining: old(self)@.remaining() as usize })),
    {
        proof {
            use_type_invariant(&*self);
        }
        let remaining = self.limit - self.position;
        if width > remaining {
            return Err(BufferUnderflowError { requested: width, remaining });
        }
        let ghost window = self@.window(width as int);
        let pos = self.position;
        let mut v: u128 = 0;
        if B::is_big() {
            let mut i: usize = 0;
            while i < width
                invariant
                    B::big(),
                    0 <= i <= width <= 16,
                    self@ == old(self)@,
                    pos == self.position,
                    self@.wf(),
                    width <= self@.remaining(),
                    window == self@.window(width as int),
                    window.len() == width,
                    v as nat == decoding(B::big(), window.subrange(0, i as int)),
                    (v as nat) < pow256(i as nat),
                decreases width - i,
            {
                let byte = self.buffer[pos + i];
                proof {
                    lemma_pow256_values();
                    lemma_pow256_increases((i + 1) as nat, 16);
                    assert(pow256((i + 1) as nat) == 256 * pow256(i as nat));
                    assert(window.subrange(0, i + 1).drop_last() =~= window.subrange(0, i as int));
                    assert(window.subrange(0, i + 1).last() == byte);
                }
                v = v * 256 + (byte as u128);
                i = i + 1;
            }
            proof {
                assert(window.subrange(0, width as int) =~= window);
            }
        } else {
            let mut i: usize = width;
            while i > 0
                invariant
                    !B::big(),
                    0 <= i <= width <= 16,
                    self@ == old(self)@,
                    pos == self.position,
                    self@.wf(),
                    width <= self@.remaining(),
                    window == self@.window(width as int),
                    window.len() == width,
                    v as nat == decoding(B::big(), window.subrange(i as int, width as int)),
                    (v as nat) < pow256((width - i) as nat),
                decreases i,
            {
                i = i - 1;
                let byte = self.buffer[pos + i];
                proof {
                    lemma_pow256_values();
                    lemma_pow256_increases((width - i) as nat, 16);
                    assert(pow256((width - i) as nat) == 256 * pow256((width - i - 1) as nat));
                    assert(window.subrange(i as int, width as int).subrange(
                        1,
                        (width - i) as int,
                    ) =~= window.subrange(i + 1, width as int));
                    assert(window.subrange(i as int, width as int)[0] == byte);
                }
                v = v * 256 + (byte as u128);
            }
            proof {
                assert(window.subrange(0, width as int) =~= window);
            }
        }
        self.position = pos + width;
        Ok(v)
    }

    /// Writes `value` as a one-byte field at the head.
    pub fn put_u8(&mut self, value: u8) -> (r: PutResult)
        ensures
            final(self)@.limit == old(self)@.limit,
            final(self)@.bytes.len() == old(self)@.bytes.len(),
            old(self)@.remaining() >= 1 ==> r is Ok && old(self)@.wrote(
                final(self)@,
                encoding(B::big(), value as nat, 1),
            ),
            old(self)@.remaining() < 1 ==> final(self)@ == old(self)@ && r == Err::<
                (),
                BufferOverflowError,
            >((BufferOverflowError { requested: 1, remaining: old(self)@.remaining() as usize })),
    {
        self.put_uint(1, value as u128)
    }

    /// Writes `value` as a two-byte field at the head.
    pub fn put_u16(&mut self, value: u16) -> (r: PutResult)
        ensures
            final(self)@.limit == old(self)@.limit,
            final(self)@.bytes.len() == old(self)@.bytes.len(),
            old(self)@.remaining() >= 2 ==> r is Ok && old(self)@.wrote(
                final(self)@,
                encoding(B::big(), value as nat, 2),
            ),
            old(self)@.remaining() < 2 ==> final(self)@ == old(self)@ && r == Err::<
                (),
                BufferOverflowError,
            >((BufferOverflowError { requested: 2, remaining: old(self)@.remaining() as usize })),
    {
        self.put_uint(2, value as u128)
    }

    /// Writes `value` as a three-byte field at the head.  Only the low 24 bits go
    /// on the wire; higher bits of `value` are discarded.
    pub fn put_u24(&mut self, value: u32) -> (r: PutResult)
        ensures
            final(self)@.limit == old(self)@.limit,
            final(self)@.bytes.len() == old(self)@.bytes.len(),
            old(self)@.remaining() >= 3 ==> r is Ok && old(self)@.wrote(
                final(self)@,
                encoding(B::big(), value as nat, 3),
            ),
            old(self)@.remaining() < 3 ==> final(self)@ == old(self)@ && r == Err::<
                (),
                BufferOverflowError,
            >((BufferOverflowError { requested: 3, remaining: old(self)@.remaining() as usize })),
    {
        self.put_uint(3, value as u128)
    }

    /// Writes `value` as a four-byte field at the head.
    pub fn put_u32(&mut self, value: u32) -> (r: PutResult)
        ensures
            final(self)@.limit == old(self)@.limit,
            final(self)@.bytes.len() == old(self)@.bytes.len(),
            old(self)@.remaining() >= 4 ==> r is Ok && old(self)@.wrote(
                final(self)@,
                encoding(B::big(), value as nat, 4),
            ),
            old(self)@.remaining() < 4 ==> final(self)@ == old(self)@ && r == Err::<
                (),
                BufferOverflowError,
            >((BufferOverflowError { requested: 4, remaining: old(self)@.remaining() as usize })),
    {
        self.put_uint(4, value as u128)
    }

    /// Writes `value` as a six-byte field at the head.  Only the low 48 bits go
    /// on the wire; higher bits of `value` are discarded.
    pub fn put_u48(&mut self, value: u64) -> (r: PutResult)
        ensures
            final(self)@.limit == old(self)@.limit,
            final(self)@.bytes.len() == old(self)@.bytes.len(),
            old(self)@.remaining() >= 6 ==> r is Ok && old(self)@.wrote(
                final(self)@,
                encoding(B::big(), value as nat, 6),
            ),
            old(self)@.remaining() < 6 ==> final(self)@ == old(self)@ && r == Err::<
                (),
                BufferOverflowError,
            >((BufferOverflowError { requested: 6, remaining: old(self)@.remaining() as usize })),
    {
        self.put_uint(6, value as u128)
    }

    /// Writes `value` as an eight-byte field at the head.
    pub fn put_u64(&mut self, value: u64) -> (r: PutResult)
        ensures
            final(self)@.limit == old(self)@.limit,
            final(self)@.bytes.len() == old(self)@.bytes.len(),
            old(self)@.remaining() >= 8 ==> r is Ok && old(self)@.wrote(
                final(self)@,
                encoding(B::big(), value as nat, 8),
            ),
            old(self)@.remaining() < 8 ==> final(self)@ == old(self)@ && r == Err::<
                (),
                BufferOverflowError,
            >((BufferOverflowError { requested: 8, remaining: old(self)@.remaining() as usize })),
    {
        self.put_uint(8, value as u128)
    }

    /// Writes `value` as a sixteen-byte field at the head.
    pub fn put_u128(&mut self, value: u128) -> (r: PutResult)
        ensures
            final(self)@.limit == old(self)@.limit,
            final(self)@.bytes.len() == old(self)@.bytes.len(),
            old(self)@.remaining() >= 16 ==> r is Ok && old(self)@.wrote(
                final(self)@,
                encoding(B::big(), value as nat, 16),
            ),
            old(self)@.remaining() < 16 ==> final(self)@ == old(self)@ && r == Err::<
                (),
                BufferOverflowError,
            >((BufferOverflowError { requested: 16, remaining: old(self)@.remaining() as usize })),
    {
        self.put_uint(16, value as u128)
    }

    /// Reads a one-byte unsigned field at the head.
    pub fn take_u8(&mut self) -> (r: TakeResult<u8>)
        ensures
            final(self)@.bytes == old(self)@.bytes,
            final(self)@.limit == old(self)@.limit,
            old(self)@.remaining() >= 1 ==> {
                &&& r is Ok
                &&& old(self)@.read_over(final(self)@, 1)
                &&& r->Ok_0 as nat == decoding(B::big(), old(self)@.window(1))
            },
            old(self)@.remaining() < 1 ==> final(self)@ == old(self)@ && r == Err::<
                u8,
                BufferUnderflowError,
            >((BufferUnderflowError { requested: 1, remaining: old(self)@.remaining() as usize })),
    {
        proof {
            lemma_pow256_values();
        }
        match self.take_uint(1) {
            Ok(wire) => Ok(wire as u8),
            Err(e) => Err(e),
        }
    }

    /// Reads a two-byte unsigned field at the head.
    pub fn take_u16(&mut self) -> (r: TakeResult<u16>)
        ensures
            final(self)@.bytes == old(self)@.bytes,
            final(self)@.limit == old(self)@.limit,
            old(self)@.remaining() >= 2 ==> {
                &&& r is Ok
                &&& old(self)@.read_over(final(self)@, 2)
                &&& r->Ok_0 as nat == decoding(B::big(), old(self)@.window(2))
            },
            old(self)@.remaining() < 2 ==> final(self)@ == old(self)@ && r == Err::<
                u16,
                BufferUnderflowError,
            >((BufferUnderflowError { requested: 2, remaining: old(self)@.remaining() as usize })),
    {
        proof {
            lemma_pow256_values();
        }
        match self.take_uint(2) {
            Ok(wire) => Ok(wire as u16),
            Err(e) => Err(e),
        }
    }

    /// Reads a three-byte unsigned field at the head.
    pub fn take_u24(&mut self) -> (r: TakeResult<u32>)
        ensures
            final(self)@.bytes == old(self)@.bytes,
            final(self)@.limit == old(self)@.limit,
            old(self)@.remaining() >= 3 ==> {
                &&& r is Ok
                &&& old(self)@.read_over(final(self)@, 3)
                &&& r->Ok_0 as nat == decoding(B::big(), old(self)@.window(3))
            },
            old(self)@.remaining() < 3 ==> final(self)@ == old(self)@ && r == Err::<
                u32,
                BufferUnderflowError,
            >((BufferUnderflowError { requested: 3, remaining: old(self)@.remaining() as usize })),
    {
        proof {
            lemma_pow256_values();
        }
        match self.take_uint(3) {
            Ok(wire) => Ok(wire as u32),
            Err(e) => Err(e),
        }
    }

    /// Reads a four-byte unsigned field at the head.
    pub fn take_u32(&mut self) -> (r: TakeResult<u32>)
        ensures
            final(self)@.bytes == old(self)@.bytes,
            final(self)@.limit == old(self)@.limit,
            old(self)@.remaining() >= 4 ==> {
                &&& r is Ok
                &&& old(self)@.read_over(final(self)@, 4)
                &&& r->Ok_0 as nat == decoding(B::big(), old(self)@.window(4))
            },
            old(self)@.remaining() < 4 ==> final(self)@ == old(self)@ && r == Err::<
                u32,
                BufferUnderflowError,
            >((BufferUnderflowError { requested: 4, remaining: old(self)@.remaining() as usize })),
    {
        proof {
            lemma_pow256_values();
        }
        match self.take_uint(4) {
            Ok(wire) => Ok(wire as u32),
            Err(e) => Err(e),
        }
    }

    /// Reads a six-byte unsigned field at the head.
    pub fn take_u48(&mut self) -> (r: TakeResult<u64>)
        ensures
            final(self)@.bytes == old(self)@.bytes,
            final(self)@.limit == old(self)@.limit,
            old(self)@.remaining() >= 6 ==> {
                &&& r is Ok
                &&& old(self)@.read_over(final(self)@, 6)
                &&& r->Ok_0 as nat == decoding(B::big(), old(self)@.window(6))
            },
            old(self)@.remaining() < 6 ==> final(self)@ == old(self)@ && r == Err::<
                u64,
                BufferUnderflowError,
            >((BufferUnderflowError { requested: 6, remaining: old(self)@.remaining() as usize })),
    {
        proof {
            lemma_pow256_values();
        }
        match self.take_uint(6) {
            Ok(wire) => Ok(wire as u64),
            Err(e) => Err(e),
        }
    }

    /// Reads an eight-byte unsigned field at the head.
    pub fn take_u64(&mut self) -> (r: TakeResult<u64>)
        ensures
            final(self)@.bytes == old(self)@.bytes,
            final(self)@.limit == old(self)@.limit,
            old(self)@.remaining() >= 8 ==> {
                &&& r is Ok
                &&& old(self)@.read_over(final(self)@, 8)
                &&& r->Ok_0 as nat == decoding(B::big(), old(self)@.window(8))
            },
            old(self)@.remaining() < 8 ==> final(self)@ == old(self)@ && r == Err::<
                u64,
                BufferUnderflowError,
            >((BufferUnderflowError { requested: 8, remaining: old(self)@.remaining() as usize })),
    {
        proof {
            lemma_pow256_values();
        }
        match self.take_uint(8) {
            Ok(wire) => Ok(wire as u64),
            Err(e) => Err(e),
        }
    }

    /// Reads a sixteen-byte unsigned field at the head.
    pub fn take_u128(&mut self) -> (r: TakeResult<u128>)
        ensures
            final(self)@.bytes == old(self)@.bytes,
            final(self)@.limit == old(self)@.limit,
            old(self)@.remaining() >= 16 ==> {
                &&& r is Ok
                &&& old(self)@.read_over(final(self)@, 16)
                &&& r->Ok_0 as nat == decoding(B::big(), old(self)@.window(16))
            },
            old(self)@.remaining() < 16 ==> final(self)@ == old(self)@ && r == Err::<
                u128,
                BufferUnderflowError,
            >((BufferUnderflowError { requested: 16, remaining: old(self)@.remaining() as usize })),
    {
        proof {
            lemma_pow256_values();
        }
        match self.take_uint(16) {
            Ok(wire) => Ok(wire as u128),
            Err(e) => Err(e),
        }
    }
    /// Writes `value` as a one-byte signed field at the head, in two's
    /// complement.
    pub fn put_i8(&mut self, value: i8) -> (r: PutResult)
        ensures
            final(self)@.limit == old(self)@.limit,
            final(self)@.bytes.len() == old(self)@.bytes.len(),
            old(self)@.remaining() >= 1 ==> r is Ok && old(self)@.wrote(
                final(self)@,
                encoding(B::big(), unsigned_of(value as int, 1), 1),
            ),
            old(self)@.remaining() < 1 ==> final(self)@ == old(self)@ && r == Err::<
                (),
                BufferOverflowError,
            >((BufferOverflowError { requested: 1, remaining: old(self)@.remaining() as usize })),
    {
        let wire: u8 = if value >= 0 {
            value as u8
        } else {
            ((value as i16) + 0x100) as u8
        };
        proof {
            lemma_pow256_values();
            lemma_unsigned_of_in_range(value as int, 1);
        }
        self.put_uint(1, wire as u128)
    }

    /// Writes `value` as a two-byte signed field at the head, in two's
    /// complement.
    pub fn put_i16(&mut self, value: i16) -> (r: PutResult)
        ensures
            final(self)@.limit == old(self)@.limit,
            final(self)@.bytes.len() == old(self)@.bytes.len(),
            old(self)@.remaining() >= 2 ==> r is Ok && old(self)@.wrote(
                final(self)@,
                encoding(B::big(), unsigned_of(value as int, 2), 2),
            ),
            old(self)@.remaining() < 2 ==> final(self)@ == old(self)@ && r == Err::<
                (),
                BufferOverflowError,
            >((BufferOverflowError { requested: 2, remaining: old(self)@.remaining() as usize })),
    {
        let wire: u16 = if value >= 0 {
            value as u16
        } else {
            ((value as i32) + 0x10000) as u16
        };
        proof {
            lemma_pow256_values();
            lemma_unsigned_of_in_range(value as int, 2);
        }
        self.put_uint(2, wire as u128)
    }

    /// Writes `value` as a three-byte signed field at the head, in two's
    /// complement.  Only the low 24 bits go on the
    /// wire; higher bits of `value`, its sign bit included, are discarded.
    pub fn put_i24(&mut self, value: i32) -> (r: PutResult)
        ensures
            final(self)@.limit == old(self)@.limit,
            final(self)@.bytes.len() == old(self)@.bytes.len(),
            old(self)@.remaining() >= 3 ==> r is Ok && old(self)@.wrote(
                final(self)@,
                encoding(B::big(), unsigned_of(value as int, 3), 3),
            ),
            old(self)@.remaining() < 3 ==> final(self)@ == old(self)@ && r == Err::<
                (),
                BufferOverflowError,
            >((BufferOverflowError { requested: 3, remaining: old(self)@.remaining() as usize })),
    {
        let wire: u32 = if value >= 0 {
            (value as u32) % 0x1000000
        } else {
            ((((value as i64) + 0x100000000i64) as u64) % 0x1000000) as u32
        };
        proof {
            lemma_pow256_values();
            lemma_unsigned_of_add_multiple(value as int, 3, 256);
        }
        self.put_uint(3, wire as u128)
    }

    /// Writes `value` as a four-byte signed field at the head, in two's
    /// complement.
    pub fn put_i32(&mut self, value: i32) -> (r: PutResult)
        ensures
            final(self)@.limit == old(self)@.limit,
            final(self)@.bytes.len() == old(self)@.bytes.len(),
            old(self)@.remaining() >= 4 ==> r is Ok && old(self)@.wrote(
                final(self)@,
                encoding(B::big(), unsigned_of(value as int, 4), 4),
            ),
            old(self)@.remaining() < 4 ==> final(self)@ == old(self)@ && r == Err::<
                (),
                BufferOverflowError,
            >((BufferOverflowError { requested: 4, remaining: old(self)@.remaining() as usize })),
    {
        let wire: u32 = if value >= 0 {
            value as u32
        } else {
            ((value as i64) + 0x100000000i64) as u32
        };
        proof {
            lemma_pow256_values();
            lemma_unsigned_of_in_range(value as int, 4);
        }
        self.put_uint(4, wire as u128)
    }

    /// Writes `value` as a six-byte signed field at the head, in two's
    /// complement.  Only the low 48 bits go on the
    /// wire; higher bits of `value`, its sign bit included, are discarded.
    pub fn put_i48(&mut self, value: i64) -> (r: PutResult)
        ensures
            final(self)@.limit == old(self)@.limit,
            final(self)@.bytes.len() == old(self)@.bytes.len(),
            old(self)@.remaining() >= 6 ==> r is Ok && old(self)@.wrote(
                final(self)@,
                encoding(B::big(), unsigned_of(value as int, 6), 6),
            ),
            old(self)@.remaining() < 6 ==> final(self)@ == old(self)@ && r == Err::<
                (),
                BufferOverflowError,
            >((BufferOverflowError { requested: 6, remaining: old(self)@.remaining() as usize })),
    {
        let wire: u64 = if value >= 0 {
            (value as u64) % 0x1000000000000
        } else {
            ((((value as i128) + 0x10000000000000000i128) as u128) % 0x1000000000000) as u64
        };
        proof {
            lemma_pow256_values();
            lemma_unsigned_of_add_multiple(value as int, 6, 0x10000);
        }
        self.put_uint(6, wire as u128)
    }

    /// Writes `value` as an eight-byte signed field at the head, in two's
    /// complement.
    pub fn put_i64(&mut self, value: i64) -> (r: PutResult)
        ensures
            final(self)@.limit == old(self)@.limit,
            final(self)@.bytes.len() == old(self)@.bytes.len(),
            old(self)@.remaining() >= 8 ==> r is Ok && old(self)@.wrote(
                final(self)@,
                encoding(B::big(), unsigned_of(value as int, 8), 8),
            ),
            old(self)@.remaining() < 8 ==> final(self)@ == old(self)@ && r == Err::<
                (),
                BufferOverflowError,
            >((BufferOverflowError { requested: 8, remaining: old(self)@.remaining() as usize })),
    {
        let wire: u64 = if value >= 0 {
            value as u64
        } else {
            ((value as i128) + 0x10000000000000000i128) as u64
        };
        proof {
            lemma_pow256_values();
            lemma_unsigned_of_in_range(value as int, 8);
        }
        self.put_uint(8, wire as u128)
    }

    /// Writes `value` as a sixteen-byte signed field at the head, in two's
    /// complement.
    pub fn put_i128(&mut self, value: i128) -> (r: PutResult)
        ensures
            final(self)@.limit == old(self)@.limit,
            final(self)@.bytes.len() == old(self)@.bytes.len(),
            old(self)@.remaining() >= 16 ==> r is Ok && old(self)@.wrote(
                final(self)@,
                encoding(B::big(), unsigned_of(value as int, 16), 16),
            ),
            old(self)@.remaining() < 16 ==> final(self)@ == old(self)@ && r == Err::<
                (),
                BufferOverflowError,
            >((BufferOverflowError { requested: 16, remaining: old(self)@.remaining() as usize })),
    {
        let wire: u128 = if value >= 0 {
            value as u128
        } else {
            (((value + 1) + i128::MAX) as u128) + 0x80000000000000000000000000000000u128
        };
        proof {
            lemma_pow256_values();
            lemma_unsigned_of_in_range(value as int, 16);
        }
        self.put_uint(16, wire as u128)
    }

    /// Reads a one-byte signed field at the head: two's complement,
    /// sign-extended into the returned type.
    pub fn take_i8(&mut self) -> (r: TakeResult<i8>)
        ensures
            final(self)@.bytes == old(self)@.bytes,
            final(self)@.limit == old(self)@.limit,
            old(self)@.remaining() >= 1 ==> {
                &&& r is Ok
                &&& old(self)@.read_over(final(self)@, 1)
                &&& r->Ok_0 as int == signed_of(decoding(B::big(), old(self)@.window(1)), 1)
            },
            old(self)@.remaining() < 1 ==> final(self)@ == old(self)@ && r == Err::<
                i8,
                BufferUnderflowError,
            >((BufferUnderflowError { requested: 1, remaining: old(self)@.remaining() as usize })),
    {
        proof {
            lemma_pow256_values();
        }
        match self.take_uint(1) {
            Ok(wire) => Ok(if wire < 0x80 {
                wire as i8
            } else {
                ((wire as i16) - 0x100) as i8
            }),
            Err(e) => Err(e),
        }
    }

    /// Reads a two-byte signed field at the head: two's complement,
    /// sign-extended into the returned type.
    pub fn take_i16(&mut self) -> (r: TakeResult<i16>)
        ensures
            final(self)@.bytes == old(self)@.bytes,
            final(self)@.limit == old(self)@.limit,
            old(self)@.remaining() >= 2 ==> {
                &&& r is Ok
                &&& old(self)@.read_over(final(self)@, 2)
                &&& r->Ok_0 as int == signed_of(decoding(B::big(), old(self)@.window(2)), 2)
            },
            old(self)@.remaining() < 2 ==> final(self)@ == old(self)@ && r == Err::<
                i16,
                BufferUnderflowError,
            >((BufferUnderflowError { requested: 2, remaining: old(self)@.remaining() as usize })),
    {
        proof {
            lemma_pow256_values();
        }
        match self.take_uint(2) {
            Ok(wire) => Ok(if wire < 0x8000 {
                wire as i16
            } else {
                ((wire as i32) - 0x10000) as i16
            }),
            Err(e) => Err(e),
        }
    }

    /// Reads a three-byte signed field at the head: two's complement,
    /// sign-extended into the returned type.
    pub fn take_i24(&mut self) -> (r: TakeResult<i32>)
        ensures
            final(self)@.bytes == old(self)@.bytes,
            final(self)@.limit == old(self)@.limit,
            old(self)@.remaining() >= 3 ==> {
                &&& r is Ok
                &&& old(self)@.read_over(final(self)@, 3)
                &&& r->Ok_0 as int == signed_of(decoding(B::big(), old(self)@.window(3)), 3)
            },
            old(self)@.remaining() < 3 ==> final(self)@ == old(self)@ && r == Err::<
                i32,
                BufferUnderflowError,
            >((BufferUnderflowError { requested: 3, remaining: old(self)@.remaining() as usize })),
    {
        proof {
            lemma_pow256_values();
        }
        match self.take_uint(3) {
            Ok(wire) => Ok(if wire < 0x800000 {
                wire as i32
            } else {
                ((wire as i64) - 0x1000000) as i32
            }),
            Err(e) => Err(e),
        }
    }

    /// Reads a four-byte signed field at the head: two's complement,
    /// sign-extended into the returned type.
    pub fn take_i32(&mut self) -> (r: TakeResult<i32>)
        ensures
            final(self)@.bytes == old(self)@.bytes,
            final(self)@.limit == old(self)@.limit,
            old(self)@.remaining() >= 4 ==> {
                &&& r is Ok
                &&& old(self)@.read_over(final(self)@, 4)
                &&& r->Ok_0 as int == signed_of(decoding(B::big(), old(self)@.window(4)), 4)
            },
            old(self)@.remaining() < 4 ==> final(self)@ == old(self)@ && r == Err::<
                i32,
                BufferUnderflowError,
            >((BufferUnderflowError { requested: 4, remaining: old(self)@.remaining() as usize })),
    {
        proof {
            lemma_pow256_values();
        }
        match self.take_uint(4) {
            Ok(wire) => Ok(if wire < 0x80000000 {
                wire as i32
            } else {
                ((wire as i64) - 0x100000000i64) as i32
            }),
            Err(e) => Err(e),
        }
    }

    /// Reads a six-byte signed field at the head: two's complement,
    /// sign-extended into the returned type.
    pub fn take_i48(&mut self) -> (r: TakeResult<i64>)
        ensures
            final(self)@.bytes == old(self)@.bytes,
            final(self)@.limit == old(self)@.limit,
            old(self)@.remaining() >= 6 ==> {
                &&& r is Ok
                &&& old(self)@.read_over(final(self)@, 6)
                &&& r->Ok_0 as int == signed_of(decoding(B::big(), old(self)@.window(6)), 6)
            },
            old(self)@.remaining() < 6 ==> final(self)@ == old(self)@ && r == Err::<
                i64,
                BufferUnderflowError,
            >((BufferUnderflowError { requested: 6, remaining: old(self)@.remaining() as usize })),
    {
        proof {
            lemma_pow256_values();
        }
        match self.take_uint(6) {
            Ok(wire) => Ok(if wire < 0x800000000000 {
                wire as i64
            } else {
                ((wire as i128) - 0x1000000000000i128) as i64
            }),
            Err(e) => Err(e),
        }
    }

    /// Reads an eight-byte signed field at the head: two's complement,
    /// sign-extended into the returned type.
    pub fn take_i64(&mut self) -> (r: TakeResult<i64>)
        ensures
            final(self)@.bytes == old(self)@.bytes,
            final(self)@.limit == old(self)@.limit,
            old(self)@.remaining() >= 8 ==> {
                &&& r is Ok
                &&& old(self)@.read_over(final(self)@, 8)
                &&& r->Ok_0 as int == signed_of(decoding(B::big(), old(self)@.window(8)), 8)
            },
            old(self)@.remaining() < 8 ==> final(self)@ == old(self)@ && r == Err::<
                i64,
                BufferUnderflowError,
            >((BufferUnderflowError { requested: 8, remaining: old(self)@.remaining() as usize })),
    {
        proof {
            lemma_pow256_values();
        }
        match self.take_uint(8) {
            Ok(wire) => Ok(if wire < 0x8000000000000000 {
                wire as i64
            } else {
                ((wire as i128) - 0x10000000000000000i128) as i64
            }),
            Err(e) => Err(e),
        }
    }

    /// Reads a sixteen-byte signed field at the head: two's complement,
    /// sign-extended into the returned type.
    pub fn take_i128(&mut self) -> (r: TakeResult<i128>)
        ensures
            final(self)@.bytes == old(self)@.bytes,
            final(self)@.limit == old(self)@.limit,
            old(self)@.remaining() >= 16 ==> {
                &&& r is Ok
                &&& old(self)@.read_over(final(self)@, 16)
                &&& r->Ok_0 as int == signed_of(decoding(B::big(), old(self)@.window(16)), 16)
            },
            old(self)@.remaining() < 16 ==> final(self)@ == old(self)@ && r == Err::<
                i128,
                BufferUnderflowError,
            >((BufferUnderflowError { requested: 16, remaining: old(self)@.remaining() as usize })),
    {
        proof {
            lemma_pow256_values();
        }
        match self.take_uint(16) {
            Ok(wire) => Ok(if wire < 0x80000000000000000000000000000000u128 {
                wire as i128
            } else {
                (((wire - 0x80000000000000000000000000000000u128) as i128) - i128::MAX) - 1
            }),
            Err(e) => Err(e),
        }
    }

    /// Writes the bytes of `value` verbatim at the head.
    pub fn put_slice(&mut self, value: &[u8]) -> (r: PutResult)
        ensures
            final(self)@.limit == old(self)@.limit,
            final(self)@.bytes.len() == old(self)@.bytes.len(),
            value@.len() <= old(self)@.remaining() ==> r is Ok && old(self)@.wrote(
                final(self)@,
                value@,
            ),
            value@.len() > old(self)@.remaining() ==> final(self)@ == old(self)@ && r == Err::<
                (),
                BufferOverflowError,
            >(
                (BufferOverflowError {
                    requested: value@.len() as usize,
                    remaining: old(self)@.remaining() as usize,
                }),
            ),
    {
        proof {
            use_type_invariant(&*self);
        }
        let remaining = self.limit - self.position;
        if value.len() > remaining {
            return Err(BufferOverflowError { requested: value.len(), remaining });
        }
        let pos = self.position;
        let mut i: usize = 0;
        while i < value.len()
            invariant
                0 <= i <= value@.len(),
                pos == self.position,
                self.position == old(self)@.position,
                self.limit == old(self)@.limit,
                self@.wf(),
                value@.len() <= self@.remaining(),
                self.buffer@.len() == old(self)@.bytes.len(),
                forall|j: int| 0 <= j < i ==> self.buffer@[pos + j] == value@[j],
                forall|j: int|
                    0 <= j < self.buffer@.len() && !(pos <= j < pos + i) ==> self.buffer@[j]
                        == old(self)@.bytes[j],
            decreases value@.len() - i,
        {
            let byte = value[i];
            self.buffer[pos + i] = byte;
            i = i + 1;
        }
        proof {
            assert(self.buffer@ =~= spliced(old(self)@.bytes, pos as int, value@));
        }
        self.position = pos + value.len();
        Ok(())
    }

    /// Reads exactly `into.len()` bytes at the head into `into`, replacing
    /// its contents element by element.
    pub fn take_slice(&mut self, into: &mut Vec<u8>) -> (r: TakeResult<()>)
        ensures
            final(self)@.bytes == old(self)@.bytes,
            final(self)@.limit == old(self)@.limit,
            final(into)@.len() == old(into)@.len(),
            old(into)@.len() <= old(self)@.remaining() ==> {
                &&& r is Ok
                &&& old(self)@.read_over(final(self)@, old(into)@.len() as int)
                &&& final(into)@ == old(self)@.window(old(into)@.len() as int)
            },
            old(into)@.len() > old(self)@.remaining() ==> final(self)@ == old(self)@
                && final(into)@ == old(into)@ && r == Err::<(), BufferUnderflowError>(
                (BufferUnderflowError {
                    requested: old(into)@.len() as usize,
                    remaining: old(self)@.remaining() as usize,
                }),
            ),
    {
        proof {
            use_type_invariant(&*self);
        }
        let remaining = self.limit - self.position;
        if into.len() > remaining {
            return Err(BufferUnderflowError { requested: into.len(), remaining });
        }
        let pos = self.position;
        let n = into.len();
        let mut i: usize = 0;
        while i < n
            invariant
                0 <= i <= n,
                n == old(into)@.len(),
                into@.len() == n,
                pos == self.position,
                self@ == old(self)@,
                self@.wf(),
                n <= self@.remaining(),
                forall|j: int| 0 <= j < i ==> into@[j] == self.buffer@[pos + j],
                forall|j: int| i <= j < n ==> into@[j] == old(into)@[j],
            decreases n - i,
        {
            let byte = self.buffer[pos + i];
            into[i] = byte;
            i = i + 1;
        }
        proof {
            assert(into@ =~= old(self)@.window(n as int));
        }
        self.position = pos + n;
        Ok(())
    }

    /// Reads everything left before `limit` into a fresh vector; never
    /// fails, since it asks for exactly what remains.
    pub fn take_vec(&mut self) -> (r: Vec<u8>)
        ensures
            final(self)@.bytes == old(self)@.bytes,
            final(self)@.limit == old(self)@.limit,
            final(self)@.position == old(self)@.limit,
            r@ == old(self)@.window(old(self)@.remaining()),
    {
        proof {
            use_type_invariant(&*self);
        }
        let pos = self.position;
        let n = self.limit - self.position;
        let mut out: Vec<u8> = Vec::new();
        while out.len() < n
            invariant
                out@.len() <= n,
                pos == self.position,
                self@ == old(self)@,
                self@.wf(),
                n == self@.remaining(),
                forall|j: int| 0 <= j < out@.len() ==> out@[j] == self.buffer@[pos + j],
            decreases n - out.len(),
        {
            let byte = self.buffer[pos + out.len()];
            out.push(byte);
        }
        proof {
            assert(out@ =~= old(self)@.window(n as int));
        }
        self.position = self.limit;
        out
    }

    /// Consumes the buffer, yielding exactly the bytes in `[position,
    /// limit)`.
    pub fn into_vec(self) -> (r: Vec<u8>)
        ensures
            r@ == self@.window(self@.remaining()),
    {
        let mut buf = self;
        buf.take_vec()
    }
    /// Writes any value with a typed codec hook, dispatching to the
    /// width-specific accessor for its type.
    pub fn put<T: BufferPut>(&mut self, value: T) -> (r: PutResult)
        ensures
            final(self)@.limit == old(self)@.limit,
            final(self)@.bytes.len() == old(self)@.bytes.len(),
            value.wire_bytes(B::big()).len() <= old(self)@.remaining() ==> r is Ok
                && old(self)@.wrote(final(self)@, value.wire_bytes(B::big())),
            value.wire_bytes(B::big()).len() > old(self)@.remaining() ==> final(self)@
                == old(self)@ && r == Err::<(), BufferOverflowError>(
                (BufferOverflowError {
                    requested: value.wire_bytes(B::big()).len() as usize,
                    remaining: old(self)@.remaining() as usize,
                }),
            ),
    {
        value.put(self)
    }

    /// Reads any value with a typed codec hook, dispatching to the
    /// width-specific accessor for its type.
    pub fn take<T: BufferTake>(&mut self) -> (r: TakeResult<T>)
        ensures
            final(self)@.bytes == old(self)@.bytes,
            final(self)@.limit == old(self)@.limit,
            T::wire_width() <= old(self)@.remaining() ==> {
                &&& r is Ok
                &&& old(self)@.read_over(final(self)@, T::wire_width() as int)
                &&& r->Ok_0 == T::of_wire(B::big(), old(self)@.window(T::wire_width() as int))
            },
            T::wire_width() > old(self)@.remaining() ==> final(self)@ == old(self)@ && r == Err::<
                T,
                BufferUnderflowError,
            >(
                (BufferUnderflowError {
                    requested: T::wire_width() as usize,
                    remaining: old(self)@.remaining() as usize,
                }),
            ),
    {
        T::take(self)
    }
}

} // verus!
