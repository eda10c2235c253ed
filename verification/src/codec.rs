//! The bit-field codec: executable range checks, field extraction and field
//! update on 64-bit words.

use vstd::arithmetic::div_mod::lemma_div_basics;
use vstd::arithmetic::div_mod::lemma_small_mod;
use vstd::arithmetic::power2::lemma2_to64;
use vstd::arithmetic::power2::lemma2_to64_rest;
use vstd::arithmetic::power2::lemma_pow2_adds;
use vstd::arithmetic::power2::lemma_pow2_pos;
use vstd::arithmetic::mul::lemma_mul_inequality;
use vstd::arithmetic::mul::lemma_mul_is_commutative;
use vstd::arithmetic::mul::lemma_mul_is_distributive_sub;
use vstd::arithmetic::power2::lemma_pow2_strictly_increases;
use vstd::arithmetic::power2::pow2;
use vstd::bits::lemma_u64_low_bits_mask_is_mod;
use vstd::bits::lemma_u64_pow2_no_overflow;
use vstd::bits::lemma_u64_shl_is_mul;
use vstd::bits::lemma_u64_shr_is_div;
use vstd::prelude::*;

use crate::model::field_value;
use crate::model::fits_signed_spec;
use crate::model::fits_unsigned_spec;
use crate::model::to_pattern;
use crate::model::to_signed;
use crate::model::with_field;

verus! {

/// The error returned by the field-update operations when the given value
/// is not representable in the requested field width.
#[derive(Clone, Copy, Debug, PartialEq, Eq, Structural)]
pub struct DoesNotFit;

/// Returns true iff the unsigned value `n` fits into `width` unsigned bits,
/// that is, iff `n <= 2^width - 1`.  Every `u64` fits once `width` reaches
/// 64; a zero-width field only holds zero.
pub fn fitsu(n: u64, width: u64) -> (r: bool)
    ensures
        r == fits_unsigned_spec(n as nat, width as nat),
{
    if width >= 64 {
        true
    } else {
        proof {
            lemma_u64_pow2_no_overflow(width as nat);
            lemma_u64_shl_is_mul(1u64, width);
        }
        n <= (1u64 << width) - 1
    }
}

/// Returns true iff the signed value `n` fits into `width` two's-complement
/// bits, that is, iff `-2^(width-1) <= n <= 2^(width-1) - 1`.  Every `i64`
/// fits once `width` reaches 64; a zero-width field only holds zero.
pub fn fitss(n: i64, width: u64) -> (r: bool)
    ensures
        r == fits_signed_spec(n as int, width as nat),
{
    if width == 0 {
        n == 0
    } else if width >= 64 {
        proof {
            lemma2_to64_rest();
        }
        true
    } else {
        let bound: u64 = 1u64 << (width - 1);
        proof {
            lemma_u64_pow2_no_overflow((width - 1) as nat);
            lemma_u64_shl_is_mul(1u64, (width - 1) as u64);
            lemma_pow2_strictly_increases((width - 1) as nat, 63);
            lemma2_to64_rest();
        }
        -(bound as i64) <= n && n <= (bound as i64) - 1
    }
}

/// Retrieves the unsigned value of the `width`-bit field of `word` that
/// begins at least-significant bit `lsb`: the field's bits shifted down to
/// position zero.  The result always fits back into `width` unsigned bits.
pub fn getu(word: u64, width: u64, lsb: u64) -> (r: u64)
    requires
        lsb + width <= 64,
    ensures
        r as nat == field_value(word as nat, width as nat, lsb as nat),
        fits_unsigned_spec(r as nat, width as nat),
{
    if width == 0 {
        proof {
            lemma2_to64();
        }
        0
    } else {
        let shifted = word >> lsb;
        proof {
            lemma_u64_shr_is_div(word, lsb);
        }
        if width == 64 {
            proof {
                lemma2_to64();
                lemma_small_mod(word as nat, pow2(64));
            }
            shifted
        } else {
            proof {
                lemma_u64_pow2_no_overflow(width as nat);
                lemma_u64_shl_is_mul(1u64, width);
                lemma_u64_low_bits_mask_is_mod(shifted, width as nat);
                lemma_pow2_pos(width as nat);
            }
            shifted & ((1u64 << width) - 1)
        }
    }
}

/// Retrieves the signed value of the `width`-bit field of `word` that
/// begins at least-significant bit `lsb`: the field is read as a
/// two's-complement number and sign-extended to the full `i64` range.
/// The result always fits back into `width` signed bits.
pub fn gets(word: u64, width: u64, lsb: u64) -> (r: i64)
    requires
        lsb + width <= 64,
    ensures
        r as int == to_signed(field_value(word as nat, width as nat, lsb as nat), width as nat),
        fits_signed_spec(r as int, width as nat),
{
    let f = getu(word, width, lsb);
    if width == 0 {
        proof {
            lemma2_to64();
        }
        0
    } else if width == 64 {
        proof {
            lemma2_to64();
            lemma2_to64_rest();
            assert(f >= 0x8000000000000000u64 ==> (f as i64) as int == f
                - 0x10000000000000000) by (bit_vector);
            assert(f < 0x8000000000000000u64 ==> (f as i64) as int == f as int) by (bit_vector);
        }
        #[verifier::truncate] (f as i64)
    } else {
        proof {
            lemma_u64_pow2_no_overflow(width as nat);
            lemma_u64_shl_is_mul(1u64, width);
            lemma_u64_pow2_no_overflow((width - 1) as nat);
            lemma_u64_shl_is_mul(1u64, (width - 1) as u64);
            lemma_pow2_strictly_increases((width - 1) as nat, 63);
            lemma2_to64();
            lemma2_to64_rest();
            lemma_pow2_adds((width - 1) as nat, 1);
            assert(((f >> ((width - 1) as u64)) & 1 == 1) == (f >= (1u64 << ((width - 1) as u64))))
                by (bit_vector)
                requires
                    1 <= width < 64 && f < (1u64 << width),
            ;
        }
        if (f >> (width - 1)) & 1 == 1 {
            proof {
                assert((f | !(((1u64 << width) - 1) as u64)) as i64 == f - (1u64 << width))
                    by (bit_vector)
                    requires
                        1 <= width < 64 && f < (1u64 << width) && f >= (1u64 << ((width - 1) as u64)),
                ;
            }
            #[verifier::truncate] ((f | !((1u64 << width) - 1)) as i64)
        } else {
            f as i64
        }
    }
}

/// Returns `word` with the `width`-bit field at least-significant bit `lsb`
/// set to the unsigned `value`, or `DoesNotFit` iff `value` does not fit
/// into `width` unsigned bits.  The field's previous content is cleared
/// before the new value is written, so the update is exact whatever the
/// field held before; all bits outside the field keep their values.
pub fn newu(word: u64, width: u64, lsb: u64, value: u64) -> (r: Result<u64, DoesNotFit>)
    requires
        lsb + width <= 64,
    ensures
        r is Ok <==> fits_unsigned_spec(value as nat, width as nat),
        r matches Ok(w) ==> w as int == with_field(
            word as nat,
            width as nat,
            lsb as nat,
            value as nat,
        ),
{
    if !fitsu(value, width) {
        return Err(DoesNotFit);
    }
    if width == 0 {
        proof {
            lemma2_to64();
        }
        return Ok(word);
    }
    if width == 64 {
        proof {
            lemma2_to64();
            lemma_small_mod(word as nat, pow2(64));
            lemma_div_basics(word as int);
            assert(field_value(word as nat, 64, 0) == word as nat);
            assert(with_field(word as nat, 64, 0, value as nat) == value as int);
        }
        return Ok(value);
    }
    proof {
        lemma_u64_pow2_no_overflow(width as nat);
        lemma_u64_shl_is_mul(1u64, width);
        lemma_pow2_pos(width as nat);
    }
    let m: u64 = (1u64 << width) - 1;
    let cleared: u64 = word & !(m << lsb);
    let placed: u64 = value << lsb;
    proof {
        assert((word & !(m << lsb)) | (value << lsb) == word - (((word >> lsb) & m) << lsb) + (
        value << lsb)) by (bit_vector)
            requires
                m == (1u64 << width) - 1 && 1 <= width && width < 64 && lsb + width <= 64 && value
                    <= m,
        ;
        lemma_u64_shr_is_div(word, lsb);
        lemma_u64_low_bits_mask_is_mod(word >> lsb, width as nat);
        let fld = (word >> lsb) & m;
        lemma2_to64();
        if lsb + width < 64 {
            lemma_pow2_strictly_increases((lsb + width) as nat, 64);
        }
        lemma_pow2_adds(width as nat, lsb as nat);
        lemma_pow2_pos(lsb as nat);
        lemma_mul_is_distributive_sub(pow2(lsb as nat) as int, pow2(width as nat) as int, 1);
        lemma_mul_is_commutative(pow2(lsb as nat) as int, pow2(width as nat) as int);
        lemma_mul_inequality(fld as int, m as int, pow2(lsb as nat) as int);
        lemma_mul_inequality(value as int, m as int, pow2(lsb as nat) as int);
        lemma_mul_is_commutative(m as int, pow2(lsb as nat) as int);
        lemma_u64_shl_is_mul(fld, lsb);
        lemma_u64_shl_is_mul(value, lsb);
    }
    Ok(cleared | placed)
}

/// Returns `word` with the `width`-bit field at least-significant bit `lsb`
/// set to the `width`-bit two's-complement pattern of the signed `value`,
/// or `DoesNotFit` iff `value` does not fit into `width` signed bits.  As
/// with [`newu`], the field is cleared before the new value is written and
/// all bits outside the field keep their values.
pub fn news(word: u64, width: u64, lsb: u64, value: i64) -> (r: Result<u64, DoesNotFit>)
    requires
        lsb + width <= 64,
    ensures
        r is Ok <==> fits_signed_spec(value as int, width as nat),
        r matches Ok(w) ==> w as int == with_field(
            word as nat,
            width as nat,
            lsb as nat,
            to_pattern(value as int, width as nat),
        ),
{
    if !fitss(value, width) {
        return Err(DoesNotFit);
    }
    let pattern: u64 = if value >= 0 {
        proof {
            lemma2_to64();
            if 1 <= width && width < 64 {
                lemma_pow2_strictly_increases((width - 1) as nat, width as nat);
            }
        }
        value as u64
    } else if width >= 64 {
        proof {
            lemma2_to64();
            assert(value < 0 ==> value as u64 == value + 0x10000000000000000) by (bit_vector);
        }
        #[verifier::truncate] (value as u64)
    } else {
        proof {
            lemma_u64_pow2_no_overflow(width as nat);
            lemma_u64_shl_is_mul(1u64, width);
            lemma_pow2_strictly_increases((width - 1) as nat, width as nat);
            assert((value as u64) & (((1u64 << width) - 1) as u64) == value + (1u64 << width))
                by (bit_vector)
                requires
                    1 <= width && width < 64 && value < 0 && value + (1u64 << width) >= 0,
            ;
        }
        #[verifier::truncate] (value as u64) & ((1u64 << width) - 1)
    };
    match newu(word, width, lsb, pattern) {
        Ok(w) => Ok(w),
        Err(e) => Err(e),
    }
}

} // verus!
