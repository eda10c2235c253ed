//! Laws of the codec.
//!
//! Writing a fitting value into a field and reading the same field back
//! yields the value again, for every word, every field position and every
//! fitting value; and writing a field never changes any field disjoint
//! from it.  The laws are stated over the model functions that the
//! contracts of [`crate::codec`] use, so together with those contracts they
//! apply to every `newu`/`getu` and `news`/`gets` pair of calls.

use vstd::arithmetic::div_mod::lemma_fundamental_div_mod;
use vstd::arithmetic::div_mod::lemma_fundamental_div_mod_converse;
use vstd::arithmetic::div_mod::lemma_hoist_over_denominator;
use vstd::arithmetic::div_mod::lemma_mod_multiples_vanish;
use vstd::arithmetic::div_mod::lemma_small_mod;
use vstd::arithmetic::mul::lemma_mul_inequality;
use vstd::arithmetic::mul::lemma_mul_is_associative;
use vstd::arithmetic::mul::lemma_mul_is_commutative;
use vstd::arithmetic::mul::lemma_mul_is_distributive_add;
use vstd::arithmetic::mul::lemma_mul_is_distributive_sub;
use vstd::arithmetic::power2::lemma2_to64;
use vstd::arithmetic::power2::lemma_pow2_adds;
use vstd::arithmetic::power2::lemma_pow2_pos;
use vstd::arithmetic::power2::lemma_pow2_strictly_increases;
use vstd::arithmetic::power2::pow2;
use vstd::prelude::*;

use crate::model::field_value;
use crate::model::fits_signed_spec;
use crate::model::fits_unsigned_spec;
use crate::model::to_pattern;
use crate::model::to_signed;
use crate::model::with_field;

verus! {

/// Core arithmetic fact behind both round-trip laws: replacing the
/// `width`-bit field of any word by a pattern `v < 2^width` produces a word
/// whose field holds exactly `v`.
pub proof fn lemma_with_field_value(word: nat, width: nat, lsb: nat, v: nat)
    requires
        v < pow2(width),
    ensures
        with_field(word, width, lsb, v) >= 0,
        field_value(with_field(word, width, lsb, v) as nat, width, lsb) == v,
{
    let p = pow2(lsb);
    let q = pow2(width);
    lemma_pow2_pos(lsb);
    lemma_pow2_pos(width);
    let quo = word / p;
    let rlow = word % p;
    let f = quo % q;
    let hi = quo / q;
    lemma_fundamental_div_mod(word as int, p as int);
    lemma_fundamental_div_mod(quo as int, q as int);
    let w = with_field(word, width, lsb, v);
    assert(w == p * (q * hi + v) + rlow) by {
        lemma_mul_is_commutative(f as int, p as int);
        lemma_mul_is_commutative(v as int, p as int);
        lemma_mul_is_distributive_sub(p as int, quo as int, f as int);
        lemma_mul_is_distributive_add(p as int, (quo - f) as int, v as int);
    }
    assert(w / (p as int) == q * hi + v) by {
        lemma_mul_is_commutative(p as int, (q * hi + v) as int);
        lemma_fundamental_div_mod_converse(w, p as int, (q * hi + v) as int, rlow as int);
    }
    assert((q * hi + v) % q == v) by {
        lemma_mod_multiples_vanish(hi as int, v as int, q as int);
        lemma_small_mod(v, q);
    }
}

/// Field updates never alias: replacing the `width`-bit field at `lsb`
/// leaves every field disjoint from it — lying entirely below bit `lsb` or
/// entirely above bit `lsb + width` — unchanged.
pub proof fn lemma_with_field_preserves_disjoint(
    word: nat,
    width: nat,
    lsb: nat,
    v: nat,
    width2: nat,
    lsb2: nat,
)
    requires
        v < pow2(width),
        lsb2 + width2 <= lsb || lsb + width <= lsb2,
    ensures
        field_value(with_field(word, width, lsb, v) as nat, width2, lsb2) == field_value(
            word,
            width2,
            lsb2,
        ),
{
    let p = pow2(lsb);
    let q = pow2(width);
    let p2 = pow2(lsb2);
    let q2 = pow2(width2);
    lemma_pow2_pos(lsb);
    lemma_pow2_pos(width);
    lemma_pow2_pos(lsb2);
    lemma_pow2_pos(width2);
    let f = field_value(word, width, lsb);
    lemma_with_field_value(word, width, lsb, v);
    let w = with_field(word, width, lsb, v);
    let delta = v - f;
    assert(w == word + delta * (p as int)) by {
        lemma_mul_is_distributive_sub(p as int, v as int, f as int);
        lemma_mul_is_commutative(delta, p as int);
        lemma_mul_is_commutative(v as int, p as int);
        lemma_mul_is_commutative(f as int, p as int);
    }
    if lsb2 + width2 <= lsb {
        // The other field lies entirely below the updated one: the update
        // adds `delta * 2^lsb` to the word, a multiple of
        // `2^(lsb2 + width2)`, which moves neither the quotient's low part
        // nor the remainder that the other field is read from.
        let k = pow2((lsb - lsb2 - width2) as nat);
        let shift = pow2((lsb - lsb2) as nat);
        lemma_pow2_adds(width2, (lsb - lsb2 - width2) as nat);
        lemma_pow2_adds(lsb2, (lsb - lsb2) as nat);
        assert(w / (p2 as int) == word as int / (p2 as int) + delta * (shift as int)) by {
            lemma_mul_is_associative(delta, shift as int, p2 as int);
            lemma_mul_is_commutative(shift as int, p2 as int);
            lemma_hoist_over_denominator(word as int, delta * (shift as int), p2);
        }
        assert((word as int / (p2 as int) + delta * (shift as int)) % (q2 as int) == (word as int
            / (p2 as int)) % (q2 as int)) by {
            lemma_mul_is_associative(delta, k as int, q2 as int);
            lemma_mul_is_commutative(k as int, q2 as int);
            lemma_mul_is_commutative(delta * (k as int), q2 as int);
            lemma_mod_multiples_vanish(delta * (k as int), word as int / (p2 as int), q2 as int);
        }
    } else {
        // The other field lies entirely above the updated one: the update
        // rewrites only the remainder of the word modulo `2^lsb2`, so the
        // quotient that the other field is read from is untouched.
        let hi = word as int / (p2 as int);
        let lo = word as int % (p2 as int);
        let shift = pow2((lsb2 - lsb) as nat);
        let m = pow2((lsb2 - lsb - width) as nat);
        lemma_fundamental_div_mod(word as int, p2 as int);
        lemma_pow2_adds(lsb, (lsb2 - lsb) as nat);
        lemma_pow2_adds(width, (lsb2 - lsb - width) as nat);
        assert(word as int / (p as int) == hi * (shift as int) + lo / (p as int)) by {
            lemma_mul_is_associative(hi, shift as int, p as int);
            lemma_mul_is_commutative(shift as int, p as int);
            lemma_mul_is_commutative(hi, p2 as int);
            lemma_hoist_over_denominator(lo, hi * (shift as int), p);
        }
        assert(f == (lo / (p as int)) % (q as int)) by {
            lemma_mul_is_associative(hi, m as int, q as int);
            lemma_mul_is_commutative(m as int, q as int);
            lemma_mul_is_commutative(hi * (m as int), q as int);
            lemma_mod_multiples_vanish(hi * (m as int), lo / (p as int), q as int);
        }
        let a = (lo / (p as int)) / (q as int);
        let rl = lo % (p as int);
        lemma_fundamental_div_mod(lo, p as int);
        lemma_fundamental_div_mod(lo / (p as int), q as int);
        let lo2 = lo - f * (p as int) + v * (p as int);
        assert(lo2 == ((q as int) * a + v) * (p as int) + rl) by {
            lemma_mul_is_distributive_sub(p as int, lo / (p as int), f as int);
            lemma_mul_is_distributive_add(p as int, lo / (p as int) - f, v as int);
            lemma_mul_is_commutative(lo / (p as int), p as int);
            lemma_mul_is_commutative(f as int, p as int);
            lemma_mul_is_commutative(v as int, p as int);
            lemma_mul_is_commutative((q as int) * a + v, p as int);
        }
        assert(a < m as int) by {
            if a >= m {
                lemma_mul_inequality((q as int) * a, lo / (p as int), p as int);
                lemma_mul_is_commutative(lo / (p as int), p as int);
                lemma_mul_inequality(m as int, a, q as int);
                lemma_mul_is_commutative(m as int, q as int);
                lemma_mul_is_commutative(a, q as int);
                lemma_mul_inequality((q as int) * (m as int), (q as int) * a, p as int);
                lemma_mul_is_commutative(p as int, (q as int) * (m as int));
                assert(false);
            }
        }
        assert(0 <= lo2 < p2 as int) by {
            lemma_mul_inequality(0, (q as int) * a + v, p as int);
            lemma_mul_is_distributive_add(q as int, a, 1);
            lemma_mul_inequality((q as int) * a + v, (q as int) * (a + 1) - 1, p as int);
            lemma_mul_is_commutative((q as int) * (a + 1) - 1, p as int);
            lemma_mul_is_distributive_sub(p as int, (q as int) * (a + 1), 1);
            lemma_mul_is_commutative((q as int) * (a + 1), p as int);
            lemma_mul_inequality(a + 1, m as int, q as int);
            lemma_mul_is_commutative(a + 1, q as int);
            lemma_mul_is_commutative(m as int, q as int);
            lemma_mul_inequality((q as int) * (a + 1), (q as int) * (m as int), p as int);
            lemma_mul_is_commutative((q as int) * (m as int), p as int);
        }
        assert(w / (p2 as int) == hi) by {
            lemma_mul_is_commutative(p2 as int, hi);
            lemma_fundamental_div_mod_converse(w, p2 as int, hi, lo2);
        }
    }
}

/// Unsigned round trip: for every `word`, every field with
/// `lsb + width <= 64` and every `value` that fits into `width` unsigned
/// bits, setting the field to `value` and getting it back yields `value`,
/// whatever the field held before.  This is the ensures of `getu` applied
/// to the word that `newu` returns.
pub proof fn lemma_round_trip_unsigned(word: u64, width: u64, lsb: u64, value: u64)
    requires
        lsb + width <= 64,
        fits_unsigned_spec(value as nat, width as nat),
    ensures
        field_value(
            with_field(word as nat, width as nat, lsb as nat, value as nat) as nat,
            width as nat,
            lsb as nat,
        ) == value as nat,
{
    if width >= 64 {
        lemma2_to64();
    }
    lemma_with_field_value(word as nat, width as nat, lsb as nat, value as nat);
}

/// Signed round trip: for every `word`, every field with
/// `lsb + width <= 64` and every `value` that fits into `width` signed
/// bits, setting the field to the two's-complement pattern of `value` and
/// getting the field back as a signed number yields `value`, whatever the
/// field held before.  This is the ensures of `gets` applied to the word
/// that `news` returns.
pub proof fn lemma_round_trip_signed(word: u64, width: u64, lsb: u64, value: i64)
    requires
        lsb + width <= 64,
        fits_signed_spec(value as int, width as nat),
    ensures
        to_signed(
            field_value(
                with_field(
                    word as nat,
                    width as nat,
                    lsb as nat,
                    to_pattern(value as int, width as nat),
                ) as nat,
                width as nat,
                lsb as nat,
            ),
            width as nat,
        ) == value as int,
{
    let w = width as nat;
    let pat = to_pattern(value as int, w);
    lemma2_to64();
    if w > 0 {
        lemma_pow2_adds((w - 1) as nat, 1);
        if w < 64 {
            lemma_pow2_strictly_increases((w - 1) as nat, w);
        }
    }
    lemma_with_field_value(word as nat, w, lsb as nat, pat);
}

} // verus!
