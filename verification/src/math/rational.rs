//! Non-negative rational numbers: with small parts, and with wide parts.

use vstd::prelude::*;

verus! {

/// The value of a [`Rational`]: the numerator over the denominator.
pub struct Ratio {
    /// The numerator, which is not negative.
    pub num: int,
    /// The denominator, which is positive.
    pub den: int,
}

impl Ratio {
    /// `self <= other`, as rational numbers.
    pub open spec fn le(self, other: Ratio) -> bool {
        self.num * other.den <= other.num * self.den
    }

    /// `self < other`, as rational numbers.
    pub open spec fn lt(self, other: Ratio) -> bool {
        self.num * other.den < other.num * self.den
    }
}

/// A non-negative rational number `num / den`.
#[derive(Clone, Copy, Debug)]
pub struct Rational {
    num: u32,
    den: u32,
}

impl View for Rational {
    type V = Ratio;

    closed spec fn view(&self) -> Ratio {
        Ratio { num: self.num as int, den: self.den as int }
    }
}

impl Rational {
    #[verifier::type_invariant]
    spec fn inv(self) -> bool {
        self.den >= 1
    }

    /// The number `num / den`, or nothing where `den` is zero.
    pub fn new(num: u32, den: u32) -> (out: Option<Rational>)
        ensures
            out is Some <==> den >= 1,
            out matches Some(r) ==> r@ == (Ratio { num: num as int, den: den as int }),
    {
        if den == 0 {
            None
        } else {
            Some(Rational { num, den })
        }
    }

    /// The whole number `value`.
    pub fn from_integer(value: u32) -> (out: Rational)
        ensures
            out@ == (Ratio { num: value as int, den: 1 }),
    {
        Rational { num: value, den: 1 }
    }

    /// The numerator.
    pub fn num(&self) -> (num: u32)
        ensures
            num == self@.num,
            1 <= self@.den <= u32::MAX,
    {
        proof {
            use_type_invariant(self);
        }
        self.num
    }

    /// The denominator.
    pub fn den(&self) -> (den: u32)
        ensures
            den == self@.den,
            den >= 1,
    {
        proof {
            use_type_invariant(self);
        }
        self.den
    }

    /// Tells whether `self <= other`.
    pub fn le(&self, other: &Rational) -> (yes: bool)
        ensures
            yes <==> self@.le(other@),
    {
        assert(self.num * other.den <= 0xffff_ffff * 0xffff_ffff) by (nonlinear_arith)
            requires
                self.num <= 0xffff_ffff,
                other.den <= 0xffff_ffff,
        ;
        assert(other.num * self.den <= 0xffff_ffff * 0xffff_ffff) by (nonlinear_arith)
            requires
                other.num <= 0xffff_ffff,
                self.den <= 0xffff_ffff,
        ;
        (self.num as u64) * (other.den as u64) <= (other.num as u64) * (self.den as u64)
    }

    /// Tells whether `self < other`.
    pub fn lt(&self, other: &Rational) -> (yes: bool)
        ensures
            yes <==> self@.lt(other@),
    {
        assert(self.num * other.den <= 0xffff_ffff * 0xffff_ffff) by (nonlinear_arith)
            requires
                self.num <= 0xffff_ffff,
                other.den <= 0xffff_ffff,
        ;
        assert(other.num * self.den <= 0xffff_ffff * 0xffff_ffff) by (nonlinear_arith)
            requires
                other.num <= 0xffff_ffff,
                self.den <= 0xffff_ffff,
        ;
        (self.num as u64) * (other.den as u64) < (other.num as u64) * (self.den as u64)
    }
}

/// A non-negative rational number `num / den` with wide parts, which holds
/// products and reciprocals of three numbers of small parts exactly.
#[derive(Clone, Copy, Debug)]
pub struct Fraction {
    num: u128,
    den: u128,
}

impl View for Fraction {
    type V = Ratio;

    closed spec fn view(&self) -> Ratio {
        Ratio { num: self.num as int, den: self.den as int }
    }
}

impl Fraction {
    #[verifier::type_invariant]
    spec fn inv(self) -> bool {
        self.den >= 1
    }

    /// The number `num / den`, or nothing where `den` is zero.
    pub fn new(num: u128, den: u128) -> (out: Option<Fraction>)
        ensures
            out is Some <==> den >= 1,
            out matches Some(r) ==> r@ == (Ratio { num: num as int, den: den as int }),
    {
        if den == 0 {
            None
        } else {
            Some(Fraction { num, den })
        }
    }

    /// The same number with wide parts.
    pub fn from_rational(r: &Rational) -> (out: Fraction)
        ensures
            out@ == r@,
    {
        Fraction { num: r.num() as u128, den: r.den() as u128 }
    }

    /// The numerator.
    pub fn num(&self) -> (num: u128)
        ensures
            num == self@.num,
            1 <= self@.den <= u128::MAX,
    {
        proof {
            use_type_invariant(self);
        }
        self.num
    }

    /// The denominator.
    pub fn den(&self) -> (den: u128)
        ensures
            den == self@.den,
            den >= 1,
    {
        proof {
            use_type_invariant(self);
        }
        self.den
    }
}

} // verus!
