//! Tolerant comparisons and the random-sample carrier.
//!
//! Every sign or zero decision of the tracer absorbs fixed-point noise by
//! comparing against the tolerance `fixed::EPS` instead of exact zero.
//! The uniform random source itself lives outside the verified core; its
//! draws enter as plain fixed-point values in `[0, SCALE)` carried by
//! [`Sample2D`].

use crate::fixed::{sabs, EPS, SCALE};
use vstd::prelude::*;

verus! {

pub open spec fn spec_equal_error(f0: int, f1: int) -> bool {
    sabs(f0 - f1) < EPS
}

pub open spec fn spec_greater_error(f0: int, f1: int) -> bool {
    f0 > f1 + EPS
}

pub open spec fn spec_less_error(f0: int, f1: int) -> bool {
    f0 < f1 - EPS
}

pub open spec fn spec_is_positive_error(f0: int) -> bool {
    f0 > EPS
}

pub open spec fn spec_is_negative_error(f0: int) -> bool {
    f0 < -EPS
}

/// `f0` and `f1` differ by less than the tolerance.
pub fn equal_error(f0: i64, f1: i64) -> (r: bool)
    ensures
        r == spec_equal_error(f0 as int, f1 as int),
{
    let d: i128 = f0 as i128 - f1 as i128;
    -(EPS as i128) < d && d < EPS as i128
}

/// `f0` exceeds `f1` by more than the tolerance.
pub fn greater_error(f0: i64, f1: i64) -> (r: bool)
    ensures
        r == spec_greater_error(f0 as int, f1 as int),
{
    f0 as i128 > f1 as i128 + EPS as i128
}

/// `f0` is below `f1` by more than the tolerance.
pub fn less_error(f0: i64, f1: i64) -> (r: bool)
    ensures
        r == spec_less_error(f0 as int, f1 as int),
{
    (f0 as i128) < f1 as i128 - EPS as i128
}

pub fn is_positive_error(f0: i64) -> (r: bool)
    ensures
        r == spec_is_positive_error(f0 as int),
{
    f0 > EPS
}

pub fn is_negative_error(f0: i64) -> (r: bool)
    ensures
        r == spec_is_negative_error(f0 as int),
{
    f0 < -EPS
}

/// One pair of independent uniform draws, each a fixed-point value in
/// `[0, SCALE)`; the generator that produces them stays outside the core.
#[derive(Debug, Clone, Copy)]
pub struct Sample2D {
    pub s: i64,
    pub t: i64,
}

impl Sample2D {
    /// Both draws lie in the unit interval.
    pub open spec fn wf(self) -> bool {
        &&& 0 <= self.s < SCALE
        &&& 0 <= self.t < SCALE
    }
}

} // verus!
