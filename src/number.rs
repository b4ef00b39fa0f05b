//! Exact rational numbers used for column bounds and released sensitivities.
use vstd::prelude::*;

verus! {

/// The rational number `num / den`.
///
/// The representation is not reduced: `2/4` and `1/2` are different values of
/// this type that denote the same number.
/// A denominator of zero denotes no number; the constructors never make one.
#[derive(Clone, Copy, Debug, PartialEq, Eq, Structural)]
pub struct Rational {
    pub num: i128,
    pub den: u64,
}

/// Whether a numerator and denominator fit the fields of a [`Rational`].
pub open spec fn fits(num: int, den: int) -> bool {
    i128::MIN <= num <= i128::MAX && 0 <= den <= u64::MAX
}

/// The rational with the given parts, if they fit.
pub open spec fn make(num: int, den: int) -> Option<Rational> {
    if fits(num, den) {
        Some(Rational { num: num as i128, den: den as u64 })
    } else {
        None
    }
}

/// Whether an integer fits an `i128`.
pub open spec fn fits_i128(x: int) -> bool {
    i128::MIN <= x <= i128::MAX
}

/// `a - b`, over the common denominator `a.den * b.den`; `None` where a cross
/// product or the result leaves 128 bits.
pub open spec fn sub_spec(a: Rational, b: Rational) -> Option<Rational> {
    if fits_i128(a.num * b.den) && fits_i128(b.num * a.den) {
        make(a.num * b.den - b.num * a.den, a.den * b.den)
    } else {
        None
    }
}

/// `a * k`.
pub open spec fn mul_spec(a: Rational, k: u64) -> Option<Rational> {
    make(a.num * k, a.den as int)
}

/// `a / k`, for `k > 0`.
pub open spec fn div_spec(a: Rational, k: u64) -> Option<Rational> {
    make(a.num as int, a.den * k)
}

/// `floor(n / d)` for `d > 0`, held to the range of `u64`.
pub open spec fn floor_clamped(n: int, d: int) -> u64 {
    if n < 0 {
        0
    } else if n / d > u64::MAX {
        u64::MAX as u64
    } else {
        (n / d) as u64
    }
}

impl Rational {
    /// Whether the value denotes a number.
    pub open spec fn wf(self) -> bool {
        self.den > 0
    }

    /// The rational `num / den`.
    pub fn new(num: i128, den: u64) -> (r: Rational)
        requires
            den > 0,
        ensures
            r == (Rational { num, den }),
            r.wf(),
    {
        Rational { num, den }
    }

    /// The integer `n` as a rational.
    pub fn from_int(n: i128) -> (r: Rational)
        ensures
            r == (Rational { num: n, den: 1 }),
            r.wf(),
    {
        Rational { num: n, den: 1 }
    }

    /// `self - other`, or `None` where the result does not fit.
    pub fn checked_sub(&self, other: &Rational) -> (r: Option<Rational>)
        ensures
            r == sub_spec(*self, *other),
    {
        let d = self.den.checked_mul(other.den);
        let a = self.num.checked_mul(other.den as i128);
        let b = other.num.checked_mul(self.den as i128);
        match (a, b, d) {
            (Some(a), Some(b), Some(d)) => {
                match a.checked_sub(b) {
                    Some(n) => Some(Rational { num: n, den: d }),
                    None => None,
                }
            },
            _ => None,
        }
    }

    /// `self * k`, or `None` where the result does not fit.
    pub fn checked_mul_int(&self, k: u64) -> (r: Option<Rational>)
        ensures
            r == mul_spec(*self, k),
    {
        match self.num.checked_mul(k as i128) {
            Some(n) => Some(Rational { num: n, den: self.den }),
            None => None,
        }
    }

    /// `self / k`, or `None` where the result does not fit.
    pub fn checked_div_int(&self, k: u64) -> (r: Option<Rational>)
        ensures
            r == div_spec(*self, k),
    {
        match self.den.checked_mul(k) {
            Some(d) => Some(Rational { num: self.num, den: d }),
            None => None,
        }
    }
}

} // verus!
