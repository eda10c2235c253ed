//! Mathematical model of bit fields.
//!
//! A `width`-bit field at bit `lsb` of a word `w` holds the natural number
//! `(w / 2^lsb) % 2^width`.  The spec functions here describe fields, their
//! signed (two's-complement) reading, the ranges representable in a given
//! width, and the word that results from overwriting one field.  All
//! executable code in this crate is specified against these functions.

use vstd::arithmetic::power2::pow2;
use vstd::prelude::*;

verus! {

/// The unsigned value held by the `width`-bit field of `word` whose
/// least-significant bit is bit `lsb`.
pub open spec fn field_value(word: nat, width: nat, lsb: nat) -> nat {
    (word / pow2(lsb)) % pow2(width)
}

/// The two's-complement reading of a `width`-bit pattern `f`: patterns with
/// the high bit of the field set denote negative numbers.
pub open spec fn to_signed(f: nat, width: nat) -> int
    recommends
        f < pow2(width),
{
    if width > 0 && f >= pow2((width - 1) as nat) {
        f - pow2(width)
    } else {
        f as int
    }
}

/// The `width`-bit two's-complement pattern that denotes `n`.
pub open spec fn to_pattern(n: int, width: nat) -> nat
    recommends
        fits_signed_spec(n, width),
        width <= 64,
{
    if n >= 0 {
        n as nat
    } else {
        (n + pow2(width)) as nat
    }
}

/// `n` is representable as an unsigned `width`-bit field.  A width of 64 or
/// more admits every `u64`; a width of zero admits only zero.
pub open spec fn fits_unsigned_spec(n: nat, width: nat) -> bool {
    width >= 64 || n < pow2(width)
}

/// `n` is representable as a signed (two's-complement) `width`-bit field.
/// A width of 64 or more admits every `i64`; a width of zero admits only
/// zero, since such a field has no bits to store a sign in.
pub open spec fn fits_signed_spec(n: int, width: nat) -> bool {
    if width == 0 {
        n == 0
    } else if width >= 64 {
        -pow2(63) <= n < pow2(63)
    } else {
        -pow2((width - 1) as nat) <= n < pow2((width - 1) as nat)
    }
}

/// `word` with the `width`-bit field at `lsb` replaced by the pattern `v`;
/// every bit outside the field keeps its value.  Splitting `word` as
/// `high * 2^(lsb+width) + field * 2^lsb + low` with `low < 2^lsb`, the
/// result is `high * 2^(lsb+width) + v * 2^lsb + low`.
pub open spec fn with_field(word: nat, width: nat, lsb: nat, v: nat) -> int
    recommends
        lsb + width <= 64,
        v < pow2(width),
{
    word - field_value(word, width, lsb) * pow2(lsb) + v * pow2(lsb)
}

} // verus!
