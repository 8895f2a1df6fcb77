//! The mathematical model of the wire format: what bytes a fixed-width
//! unsigned field holds for a given value, what value a run of bytes spells,
//! and how signed values map onto unsigned wire values (two's complement).

use vstd::prelude::*;
use vstd::arithmetic::div_mod::{
    lemma_breakdown, lemma_mod_multiples_vanish, lemma_small_mod,
};

verus! {

/// 256^width: the number of distinct values a field of `width` bytes can hold.
pub open spec fn pow256(width: nat) -> nat
    decreases width,
{
    if width == 0 {
        1
    } else {
        256 * pow256((width - 1) as nat)
    }
}

/// The `width` low-order bytes of `value` in the chosen byte order: the first
/// byte of a big-endian field is its most significant, the first byte of a
/// little-endian field its least significant.  Bits above `8 * width` are
/// discarded, so every value has exactly one encoding of each width.
pub open spec fn encoding(big_endian: bool, value: nat, width: nat) -> Seq<u8>
    decreases width,
{
    if width == 0 {
        Seq::empty()
    } else if big_endian {
        encoding(big_endian, value / 256, (width - 1) as nat) + seq![(value % 256) as u8]
    } else {
        seq![(value % 256) as u8] + encoding(big_endian, value / 256, (width - 1) as nat)
    }
}

/// The unsigned value that `bytes` spell in the chosen byte order.
pub open spec fn decoding(big_endian: bool, bytes: Seq<u8>) -> nat
    decreases bytes.len(),
{
    if bytes.len() == 0 {
        0nat
    } else if big_endian {
        256 * decoding(big_endian, bytes.drop_last()) + (bytes.last() as nat)
    } else {
        (bytes[0] as nat) + 256 * decoding(big_endian, bytes.subrange(1, bytes.len() as int))
    }
}

/// The unsigned wire value of the signed `value`, truncated to `width` bytes:
/// its two's-complement form.
pub open spec fn unsigned_of(value: int, width: nat) -> nat {
    (value % (pow256(width) as int)) as nat
}

/// The signed reading of an unsigned `wire` value of `width` bytes: values at
/// or above half the range stand for negatives (sign extension).
pub open spec fn signed_of(wire: nat, width: nat) -> int {
    if wire < pow256(width) / 2 {
        wire as int
    } else {
        wire - pow256(width)
    }
}

/// `region` with `patch` written over its bytes starting at index `at`.
pub open spec fn spliced(region: Seq<u8>, at: int, patch: Seq<u8>) -> Seq<u8> {
    region.subrange(0, at) + patch + region.subrange(at + patch.len(), region.len() as int)
}

pub proof fn lemma_pow256_pos(width: nat)
    ensures
        pow256(width) >= 1,
    decreases width,
{
    if width > 0 {
        lemma_pow256_pos((width - 1) as nat);
    }
}

/// The field sizes the typed accessors use, written out.
pub proof fn lemma_pow256_values()
    ensures
        pow256(0) == 1,
        pow256(1) == 0x100,
        pow256(2) == 0x10000,
        pow256(3) == 0x1000000,
        pow256(4) == 0x100000000,
        pow256(6) == 0x1000000000000,
        pow256(8) == 0x10000000000000000,
        pow256(16) == 0x100000000000000000000000000000000,
{
    reveal_with_fuel(pow256, 17);
}

pub proof fn lemma_pow256_increases(m: nat, n: nat)
    requires
        m <= n,
    ensures
        pow256(m) <= pow256(n),
    decreases n,
{
    if m < n {
        lemma_pow256_increases(m, (n - 1) as nat);
        lemma_pow256_pos((n - 1) as nat);
    }
}

/// An encoding holds exactly as many bytes as the width asks for.
pub proof fn lemma_encoding_len(big_endian: bool, value: nat, width: nat)
    ensures
        encoding(big_endian, value, width).len() == width,
    decreases width,
{
    if width > 0 {
        lemma_encoding_len(big_endian, value / 256, (width - 1) as nat);
    }
}

/// A run of bytes always spells a value below 256^len.
pub proof fn lemma_decoding_bound(big_endian: bool, bytes: Seq<u8>)
    ensures
        decoding(big_endian, bytes) < pow256(bytes.len()),
    decreases bytes.len(),
{
    if bytes.len() > 0 {
        if big_endian {
            lemma_decoding_bound(big_endian, bytes.drop_last());
        } else {
            lemma_decoding_bound(big_endian, bytes.subrange(1, bytes.len() as int));
        }
    }
}

/// Round trip: decoding the encoding of `value` gives `value` back, reduced to
/// the field's range; a value already in range comes back exactly.
pub proof fn lemma_encoding_decoding(big_endian: bool, value: nat, width: nat)
    ensures
        decoding(big_endian, encoding(big_endian, value, width)) == value % pow256(width),
        value < pow256(width) ==> decoding(big_endian, encoding(big_endian, value, width))
            == value,
    decreases width,
{
    lemma_pow256_pos(width);
    if width == 0 {
        lemma_small_mod(0, 1);
        assert(value % pow256(width) == value % 1 == 0) by {
            lemma_mod_multiples_vanish(value as int, 0, 1);
        }
    } else {
        let rest = (width - 1) as nat;
        lemma_encoding_decoding(big_endian, value / 256, rest);
        lemma_encoding_len(big_endian, value / 256, rest);
        lemma_pow256_pos(rest);
        let tail = encoding(big_endian, value / 256, rest);
        let byte = seq![(value % 256) as u8];
        if big_endian {
            let whole = tail + byte;
            assert(whole.drop_last() =~= tail);
            assert(whole.last() == (value % 256) as u8);
        } else {
            let whole = byte + tail;
            assert(whole.subrange(1, whole.len() as int) =~= tail);
            assert(whole[0] == (value % 256) as u8);
        }
        assert(value % (256 * pow256(rest)) == 256 * ((value / 256) % pow256(rest)) + value
            % 256) by {
            lemma_breakdown(value as int, 256, pow256(rest) as int);
        }
    }
    if value < pow256(width) {
        lemma_small_mod(value, pow256(width));
    }
}

/// The wire value of a signed value no further than one whole range from
/// zero: nonnegative values go out as they are, negatives shifted up by the
/// range.
pub proof fn lemma_unsigned_of_in_range(value: int, width: nat)
    requires
        -(pow256(width) as int) <= value < pow256(width) as int,
    ensures
        value >= 0 ==> unsigned_of(value, width) == value,
        value < 0 ==> unsigned_of(value, width) == value + pow256(width),
{
    let m = pow256(width) as int;
    lemma_pow256_pos(width);
    if value >= 0 {
        lemma_small_mod(value as nat, m as nat);
    } else {
        lemma_mod_multiples_vanish(1, value, m);
        lemma_small_mod((value + m) as nat, m as nat);
    }
}

/// Moving by whole multiples of the field's range leaves the wire value
/// alone: the wire only ever sees the low `width` bytes.
pub proof fn lemma_unsigned_of_add_multiple(value: int, width: nat, k: int)
    ensures
        unsigned_of(value + k * pow256(width), width) == unsigned_of(value, width),
{
    lemma_pow256_pos(width);
    lemma_mod_multiples_vanish(k, value, pow256(width) as int);
}

/// Two's complement is invertible: a signed value within the range of a
/// `width`-byte field survives the trip onto the wire and back.
pub proof fn lemma_signed_round_trip(value: int, width: nat)
    requires
        width >= 1,
        -(pow256(width) / 2) <= value < pow256(width) / 2,
    ensures
        signed_of(unsigned_of(value, width), width) == value,
{
    let m = pow256(width) as int;
    lemma_pow256_pos(width);
    lemma_pow256_even(width);
    if value >= 0 {
        lemma_small_mod(value as nat, m as nat);
    } else {
        lemma_mod_multiples_vanish(1, value, m);
        lemma_small_mod((value + m) as nat, m as nat);
        assert(unsigned_of(value, width) == value + m);
    }
}

/// For a field at least one byte wide, the range splits evenly in two.
proof fn lemma_pow256_even(width: nat)
    requires
        width >= 1,
    ensures
        pow256(width) == 2 * (pow256(width) / 2),
        pow256(width) / 2 >= 128,
{
    lemma_pow256_pos((width - 1) as nat);
    assert(pow256(width) == 256 * pow256((width - 1) as nat));
    assert(pow256(width) / 2 == 128 * pow256((width - 1) as nat)) by (nonlinear_arith)
        requires
            pow256(width) == 256 * pow256((width - 1) as nat),
            pow256((width - 1) as nat) >= 1,
    ;
}

/// Splicing a patch into a region leaves the region's length alone, puts the
/// patch where it was aimed, and touches nothing on either side.
pub proof fn lemma_spliced_parts(region: Seq<u8>, at: int, patch: Seq<u8>)
    requires
        0 <= at,
        at + patch.len() <= region.len(),
    ensures
        spliced(region, at, patch).len() == region.len(),
        spliced(region, at, patch).subrange(at, at + patch.len()) == patch,
        forall|i: int|
            0 <= i < region.len() && !(at <= i < at + patch.len()) ==> spliced(
                region,
                at,
                patch,
            )[i] == region[i],
{
    let out = spliced(region, at, patch);
    assert(out.subrange(at, at + patch.len()) =~= patch);
}

} // verus!
