//! Exact rational slopes for the lines of the affine plane.
//!
//! A slope is a rational number kept in lowest terms, with a distinguished
//! infinite value `1/0` for the vertical direction and an undefined value
//! `0/0`.  Exact rationals keep the modular line equation free of any
//! rounding.

use crate::math::{gcd, gcd_exec, lemma_gcd_pos};
use vstd::arithmetic::div_mod::lemma_div_pos_is_pos;
use vstd::arithmetic::div_mod::lemma_div_nonincreasing;
use vstd::prelude::*;

verus! {

/// The direction of one parallel class of lines.
#[derive(Debug, PartialEq, Eq, Structural, Clone, Copy)]
pub enum Slope {
    /// The undefined value `0/0`.
    Undefined,
    /// The infinite (vertical) direction `p/0` for nonzero `p`.
    Infinite,
    /// A finite slope `num/den`, kept in lowest terms.
    Finite { num: u8, den: u8 },
}

/// The slope `p/q` brought to lowest terms; `p/0` is the infinite value and
/// `0/0` is undefined.
pub open spec fn reduced_slope(p: u8, q: u8) -> Slope {
    if q == 0 {
        if p == 0 {
            Slope::Undefined
        } else {
            Slope::Infinite
        }
    } else {
        Slope::Finite {
            num: (p as int / gcd(p as nat, q as nat) as int) as u8,
            den: (q as int / gcd(p as nat, q as nat) as int) as u8,
        }
    }
}

impl Slope {
    /// Builds the slope `p/q`, reduced to lowest terms.
    pub fn new(p: u8, q: u8) -> (s: Slope)
        ensures
            s == reduced_slope(p, q),
    {
        if q == 0 {
            if p == 0 {
                Slope::Undefined
            } else {
                Slope::Infinite
            }
        } else {
            proof {
                lemma_gcd_pos(p as nat, q as nat);
                lemma_div_pos_is_pos(p as int, gcd(p as nat, q as nat) as int);
                lemma_div_pos_is_pos(q as int, gcd(p as nat, q as nat) as int);
                lemma_div_nonincreasing(p as int, gcd(p as nat, q as nat) as int);
                lemma_div_nonincreasing(q as int, gcd(p as nat, q as nat) as int);
            }
            let g = gcd_exec(p, q);
            Slope::Finite { num: p / g, den: q / g }
        }
    }
}

/// A slope with numerator 0 and positive denominator reduces to `0/1`.
pub proof fn lemma_slope_zero(q: u8)
    requires
        q >= 1,
    ensures
        reduced_slope(0, q) == (Slope::Finite { num: 0, den: 1 }),
{
    crate::math::lemma_gcd_zero_left(q as nat);
    vstd::arithmetic::div_mod::lemma_div_of0(q as int);
    vstd::arithmetic::div_mod::lemma_div_by_self(q as int);
}

/// A slope with numerator 1 and positive denominator is already in lowest
/// terms.
pub proof fn lemma_slope_unit(q: u8)
    requires
        q >= 1,
    ensures
        reduced_slope(1, q) == (Slope::Finite { num: 1, den: q }),
{
    crate::math::lemma_gcd_one_left(q as nat);
}

} // verus!
