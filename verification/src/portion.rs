//! Per-portion nutrient amounts, derived during ingestion.
//!
//! A measurement's value is the amount per 100 reference units; a
//! food's serving size says how many reference units one serving
//! holds.  Both are in micro units, so the derived amount is
//! `value * serving / (100 * 1000000)`, rounded toward zero.

use vstd::prelude::*;

verus! {

/// The micro-unit scale squared, divided by 100: what the product of
/// two micro-unit amounts must be divided by to give micro units per
/// serving.
pub const PORTION_DIVISOR: u64 = 100000000;

/// The amount of a nutrient in one serving: `value_per_100 * serving
/// / 100`, in micro units, or zero when no non-negative serving size
/// is known.
pub open spec fn portion_of(value_per_100: int, serving_size: Option<i64>) -> int {
    match serving_size {
        Some(s) => if s >= 0 {
            (value_per_100 * s) / (PORTION_DIVISOR as int)
        } else {
            0
        },
        None => 0,
    }
}

/// Derives the per-portion amount from an amount per 100 reference
/// units and a serving size, both in micro units.
pub fn derive_portion_value(value_per_100: u64, serving_size: Option<i64>) -> (r: u64)
    requires
        portion_of(value_per_100 as int, serving_size) <= u64::MAX,
    ensures
        r as int == portion_of(value_per_100 as int, serving_size),
{
    match serving_size {
        Some(s) => {
            if s >= 0 {
                let wide: u128 = (value_per_100 as u128) * (s as u128);
                let portion: u128 = wide / (PORTION_DIVISOR as u128);
                proof {
                    assert(wide == (value_per_100 as int) * (s as int)) by (nonlinear_arith)
                        requires
                            wide == (value_per_100 as u128) * (s as u128),
                            s >= 0,
                    ;
                    assert(portion == wide / (PORTION_DIVISOR as u128));
                    vstd::arithmetic::div_mod::lemma_div_is_ordered_by_denominator(
                        wide as int,
                        PORTION_DIVISOR as int,
                        PORTION_DIVISOR as int,
                    );
                }
                portion as u64
            } else {
                0
            }
        },
        None => 0,
    }
}

/// Like `derive_portion_value`, with the machine bound checked instead
/// of required: `None` names a derived amount too large to hold.
pub fn derive_portion_value_checked(value_per_100: u64, serving_size: Option<i64>) -> (r: Option<
    u64,
>)
    ensures
        r is Some <==> portion_of(value_per_100 as int, serving_size) <= u64::MAX,
        r matches Some(v) ==> v as int == portion_of(value_per_100 as int, serving_size),
{
    match serving_size {
        Some(s) => {
            if s >= 0 {
                proof {
                    assert((value_per_100 as int) * (s as int) <= u128::MAX) by (nonlinear_arith)
                        requires
                            value_per_100 <= u64::MAX,
                            0 <= s <= i64::MAX,
                    ;
                }
                let wide: u128 = (value_per_100 as u128) * (s as u128);
                let portion: u128 = wide / (PORTION_DIVISOR as u128);
                proof {
                    assert(wide == (value_per_100 as int) * (s as int)) by (nonlinear_arith)
                        requires
                            wide == (value_per_100 as u128) * (s as u128),
                            s >= 0,
                    ;
                }
                if portion > 0xffffffffffffffff {
                    None
                } else {
                    Some(portion as u64)
                }
            } else {
                Some(0)
            }
        },
        None => Some(0),
    }
}

} // verus!
