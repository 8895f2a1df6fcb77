//! The byte-order strategy a buffer is parameterized over.  The buffer never
//! hard-codes an endianness: it asks its type parameter which way multi-byte
//! fields are laid out.

use vstd::prelude::*;

verus! {

/// A byte-order strategy: answers, at compile time and at run time alike,
/// whether multi-byte fields start with their most significant byte.
pub trait ByteOrder {
    /// Whether this order is big-endian.
    spec fn big() -> bool;

    /// The run-time answer, pinned to the spec-level one.
    fn is_big() -> (b: bool)
        ensures
            b == Self::big(),
    ;
}

/// Most significant byte first.
pub struct BigEndian;

/// Least significant byte first.
pub struct LittleEndian;

impl ByteOrder for BigEndian {
    open spec fn big() -> bool {
        true
    }

    fn is_big() -> bool {
        true
    }
}

impl ByteOrder for LittleEndian {
    open spec fn big() -> bool {
        false
    }

    fn is_big() -> bool {
        false
    }
}

} // verus!
