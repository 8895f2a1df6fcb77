//! A position/limit-bounded byte cursor over an in-memory region, with typed
//! binary encode/decode of fixed-width integers in a caller-selected byte order.
//!
//! A producer writes values while `limit == capacity`, calls `flip` to bound
//! reading to exactly what was written, a consumer reads until exhausted, then
//! `clear` or `compact` resets the buffer for another write phase.

mod byte_buffer;
mod codec;
mod order;
mod traits;

pub use byte_buffer::{
    lemma_buffer_round_trip, BufferModel, BufferOverflowError, BufferUnderflowError, ByteBuffer,
    ByteBufferError, PutResult, TakeResult,
};
pub use codec::{
    decoding, encoding, lemma_decoding_bound, lemma_encoding_decoding, lemma_encoding_len,
    lemma_signed_round_trip, lemma_spliced_parts, pow256, signed_of, spliced, unsigned_of,
};
pub use order::{BigEndian, ByteOrder, LittleEndian};
pub use traits::{BufferPut, BufferTake};
