//! The dimensions of a gadget trapdoor.

use crate::error::ParameterError;
use crate::math::arith::{check_modulus, is_modulus, log_ceil, pow_at_most, spec_log_ceil};
use vstd::arithmetic::power::{lemma_pow_increases, pow};
use vstd::prelude::*;

verus! {

/// The numbers that a [`GadgetParameters`] holds.
pub struct Gadget {
    /// The security parameter: the number of rows of the public matrix.
    pub n: int,
    /// The number of digits of a residue: the width of one gadget block.
    pub k: int,
    /// The width of the uniform part of the public matrix.
    pub m_bar: int,
    /// The base of the digits.
    pub base: int,
    /// The modulus.
    pub q: int,
}

impl Gadget {
    /// The width `n * k` of the gadget matrix.
    pub open spec fn w(self) -> int {
        self.n * self.k
    }

    /// The width `m_bar + n * k` of the public matrix.
    pub open spec fn m(self) -> int {
        self.m_bar + self.n * self.k
    }

    /// The dimensions and the entries of every matrix of the trapdoor fit the
    /// machine integers.
    pub open spec fn fits(self) -> bool {
        &&& self.m() <= usize::MAX
        &&& self.m() * self.base <= i64::MAX
        &&& pow(self.base, (self.k - 1) as nat) <= i64::MAX
    }

    /// The parameters can be used: they are positive, `base^k` reaches `q`, and
    /// everything fits.
    pub open spec fn well_formed(self) -> bool {
        &&& self.n >= 1
        &&& self.k >= 1
        &&& self.m_bar >= 1
        &&& self.base >= 2
        &&& is_modulus(self.q)
        &&& pow(self.base, self.k as nat) >= self.q
        &&& self.fits()
    }
}

/// The least width of the uniform part: `n * ceil(log2 q) + ceil(log2 n)^2`.
pub open spec fn min_m_bar(n: int, q: int) -> int {
    n * spec_log_ceil(2, q) + spec_log_ceil(2, n) * spec_log_ceil(2, n)
}

/// The number of digits that `init` settles on: the one given, else the least
/// `k` with `base^k >= q`.
pub open spec fn digits_of(k: Option<usize>, base: int, q: int) -> int {
    match k {
        Some(k) => k as int,
        None => spec_log_ceil(base, q),
    }
}

/// The reason for which `init` rejects its arguments, if any: the first
/// requirement, in this order, that they do not meet.
pub open spec fn init_error(n: int, q: int, m_bar: int, k: Option<usize>, base: int) -> Option<
    ParameterError,
> {
    let digits = digits_of(k, base, q);
    let g = Gadget { n, k: digits, m_bar, base, q };
    if n < 1 {
        Some(ParameterError::SecurityParameterTooSmall)
    } else if !is_modulus(q) {
        Some(ParameterError::InvalidModulus)
    } else if base < 2 {
        Some(ParameterError::InvalidBase)
    } else if digits < 1 || pow(base, digits as nat) < q {
        Some(ParameterError::TooFewDigits)
    } else if m_bar < min_m_bar(n, q) {
        Some(ParameterError::MBarTooSmall)
    } else if !g.fits() {
        Some(ParameterError::TooLarge)
    } else {
        None
    }
}

/// The dimensions of a gadget trapdoor: `n`, `q`, the base and the number `k` of
/// digits, and the width `m_bar` of the uniform part.
///
/// Every value of this type is well formed.
#[derive(Clone, Copy, Debug)]
pub struct GadgetParameters {
    n: usize,
    k: usize,
    m_bar: usize,
    base: u64,
    q: u64,
}

impl View for GadgetParameters {
    type V = Gadget;

    closed spec fn view(&self) -> Gadget {
        Gadget {
            n: self.n as int,
            k: self.k as int,
            m_bar: self.m_bar as int,
            base: self.base as int,
            q: self.q as int,
        }
    }
}

impl GadgetParameters {
    #[verifier::type_invariant]
    spec fn inv(self) -> bool {
        self@.well_formed()
    }

    /// Checks the parameters and keeps them.
    ///
    /// Where `k` is absent it becomes the least number of digits that every
    /// residue modulo `q` has in the base `base`.
    pub fn init(n: usize, q: u64, m_bar: usize, k: Option<usize>, base: u64) -> (out: Result<
        GadgetParameters,
        ParameterError,
    >)
        ensures
            out matches Ok(p) ==> init_error(n as int, q as int, m_bar as int, k, base as int)
                is None && p@ == (Gadget {
                n: n as int,
                k: digits_of(k, base as int, q as int),
                m_bar: m_bar as int,
                base: base as int,
                q: q as int,
            }) && p@.well_formed(),
            out matches Err(e) ==> init_error(n as int, q as int, m_bar as int, k, base as int)
                == Some(e),
    {
        if n < 1 {
            return Err(ParameterError::SecurityParameterTooSmall);
        }
        if !check_modulus(q) {
            return Err(ParameterError::InvalidModulus);
        }
        if base < 2 {
            return Err(ParameterError::InvalidBase);
        }
        let least: u32 = log_ceil(base, q);
        let digits: usize = match k {
            Some(k) => k,
            None => least as usize,
        };
        proof {
            if digits >= least {
                lemma_pow_increases(base as nat, least as nat, digits as nat);
            }
        }
        if digits < 1 || digits < least as usize {
            return Err(ParameterError::TooFewDigits);
        }
        let log_q: u32 = log_ceil(2, q);
        let log_n: u32 = log_ceil(2, n as u64);
        assert(n * log_q + log_n * log_n <= 0xffff_ffff_ffff_ffff * 64 + 64 * 64)
            by (nonlinear_arith)
            requires
                n <= 0xffff_ffff_ffff_ffff,
                0 <= log_q <= 64,
                0 <= log_n <= 64,
        ;
        let least_m_bar: u128 = (n as u128) * (log_q as u128) + (log_n as u128) * (log_n as u128);
        if (m_bar as u128) < least_m_bar {
            return Err(ParameterError::MBarTooSmall);
        }
        assert(log_q >= 1) by {
            if log_q == 0 {
                assert(pow(2, 0) == 1) by {
                    reveal(pow);
                }
            }
        }
        assert(least_m_bar >= 1) by (nonlinear_arith)
            requires
                least_m_bar == n * log_q + log_n * log_n,
                n >= 1,
                log_q >= 1,
                log_n >= 0,
        ;
        let ghost g = Gadget {
            n: n as int,
            k: digits as int,
            m_bar: m_bar as int,
            base: base as int,
            q: q as int,
        };
        assert(0 <= n * digits <= 0xffff_ffff_ffff_ffff * 0xffff_ffff_ffff_ffff)
            by (nonlinear_arith)
            requires
                0 <= n <= 0xffff_ffff_ffff_ffff,
                0 <= digits <= 0xffff_ffff_ffff_ffff,
        ;
        let m: u128 = (m_bar as u128) + (n as u128) * (digits as u128);
        if m > usize::MAX as u128 || m > 0x7fff_ffff_ffff_ffff {
            assert(!g.fits()) by (nonlinear_arith)
                requires
                    g.m() > usize::MAX || g.m() > 0x7fff_ffff_ffff_ffff,
                    g.base >= 2,
                    g.fits() ==> g.m() <= usize::MAX && g.m() * g.base <= 0x7fff_ffff_ffff_ffff,
            ;
            return Err(ParameterError::TooLarge);
        }
        assert(0 <= m * base <= 0x7fff_ffff_ffff_ffff * 0xffff_ffff_ffff_ffff)
            by (nonlinear_arith)
            requires
                0 <= m <= 0x7fff_ffff_ffff_ffff,
                0 <= base <= 0xffff_ffff_ffff_ffff,
        ;
        if m * (base as u128) > 0x7fff_ffff_ffff_ffff {
            return Err(ParameterError::TooLarge);
        }
        if !pow_at_most(base, digits - 1, 0x7fff_ffff_ffff_ffff) {
            return Err(ParameterError::TooLarge);
        }
        Ok(GadgetParameters { n, k: digits, m_bar, base, q })
    }

    /// The parameters for the base two, the least number of digits and the least
    /// width of the uniform part: `m_bar = n * ceil(log2 q) + ceil(log2 n)^2`.
    pub fn init_default(n: usize, q: u64) -> (out: Result<GadgetParameters, ParameterError>)
        ensures
            out matches Ok(p) ==> p@ == default_gadget(n as int, q as int) && p@.well_formed(),
            out matches Err(e) ==> e == default_error(n as int, q as int),
            out is Err <==> n < 1 || !is_modulus(q as int) || !default_gadget(
                n as int,
                q as int,
            ).fits(),
    {
        if n < 1 {
            return Err(ParameterError::SecurityParameterTooSmall);
        }
        if !check_modulus(q) {
            return Err(ParameterError::InvalidModulus);
        }
        let log_q: u32 = log_ceil(2, q);
        let log_n: u32 = log_ceil(2, n as u64);
        assert(n * log_q + log_n * log_n <= 0xffff_ffff_ffff_ffff * 64 + 64 * 64)
            by (nonlinear_arith)
            requires
                n <= 0xffff_ffff_ffff_ffff,
                0 <= log_q <= 64,
                0 <= log_n <= 64,
        ;
        let m_bar: u128 = (n as u128) * (log_q as u128) + (log_n as u128) * (log_n as u128);
        if m_bar > usize::MAX as u128 {
            return Err(ParameterError::TooLarge);
        }
        assert(log_q >= 1) by {
            if log_q == 0 {
                assert(pow(2, 0) == 1) by {
                    reveal(pow);
                }
            }
        }
        let out = GadgetParameters::init(n, q, m_bar as usize, None, 2);
        out
    }

    /// The security parameter `n`.
    pub fn n(&self) -> (n: usize)
        ensures
            n == self@.n,
            self@.well_formed(),
    {
        proof {
            use_type_invariant(self);
        }
        self.n
    }

    /// The number `k` of digits.
    pub fn k(&self) -> (k: usize)
        ensures
            k == self@.k,
            self@.well_formed(),
    {
        proof {
            use_type_invariant(self);
        }
        self.k
    }

    /// The width `m_bar` of the uniform part.
    pub fn m_bar(&self) -> (m_bar: usize)
        ensures
            m_bar == self@.m_bar,
            self@.well_formed(),
    {
        proof {
            use_type_invariant(self);
        }
        self.m_bar
    }

    /// The base of the digits.
    pub fn base(&self) -> (base: u64)
        ensures
            base == self@.base,
            self@.well_formed(),
    {
        proof {
            use_type_invariant(self);
        }
        self.base
    }

    /// The modulus `q`.
    pub fn q(&self) -> (q: u64)
        ensures
            q == self@.q,
            self@.well_formed(),
    {
        proof {
            use_type_invariant(self);
        }
        self.q
    }

    /// The width `n * k` of the gadget matrix.
    pub fn w(&self) -> (w: usize)
        ensures
            w == self@.w(),
            w >= 1,
            self@.well_formed(),
    {
        proof {
            use_type_invariant(self);
            lemma_widths(self@);
        }
        self.n * self.k
    }

    /// The width `m = m_bar + n * k` of the public matrix.
    pub fn m(&self) -> (m: usize)
        ensures
            m == self@.m(),
            m >= 2,
            self@.well_formed(),
    {
        proof {
            use_type_invariant(self);
            lemma_widths(self@);
        }
        self.m_bar + self.n * self.k
    }
}

/// The parameters that `init_default` settles on.
pub open spec fn default_gadget(n: int, q: int) -> Gadget {
    Gadget { n, k: spec_log_ceil(2, q), m_bar: min_m_bar(n, q), base: 2, q }
}

/// The reason for which `init_default` rejects its arguments.
pub open spec fn default_error(n: int, q: int) -> ParameterError {
    if n < 1 {
        ParameterError::SecurityParameterTooSmall
    } else if !is_modulus(q) {
        ParameterError::InvalidModulus
    } else {
        ParameterError::TooLarge
    }
}

/// The widths of a well-formed gadget are positive and fit.
pub proof fn lemma_widths(g: Gadget)
    requires
        g.well_formed(),
    ensures
        1 <= g.w() <= g.m() - 1,
        g.m() <= usize::MAX,
        g.m() <= i64::MAX,
{
    assert(g.n * g.k >= 1) by (nonlinear_arith)
        requires
            g.n >= 1,
            g.k >= 1,
    ;
    assert(g.m() <= g.m() * g.base) by (nonlinear_arith)
        requires
            g.m() >= 0,
            g.base >= 2,
    ;
}

/// The numbers that a [`GadgetParametersRing`] holds.
pub struct RingGadget {
    /// The degree of the ring: polynomials are taken modulo `X^n + 1`.
    pub n: int,
    /// The number of digits of a residue: the length of the gadget vector.
    pub k: int,
    /// The base of the digits.
    pub base: int,
    /// The modulus of the coefficients.
    pub q: int,
}

impl RingGadget {
    /// The parameters can be used: they are positive, `base^k` reaches `q`, and
    /// the length `k + 2` of the public vector fits.
    pub open spec fn well_formed(self) -> bool {
        &&& self.n >= 1
        &&& self.k >= 1
        &&& self.base >= 2
        &&& is_modulus(self.q)
        &&& pow(self.base, self.k as nat) >= self.q
        &&& self.k + 2 <= usize::MAX
    }
}

/// The parameters that `GadgetParametersRing::init_default` settles on.
pub open spec fn default_ring_gadget(n: int, q: int) -> RingGadget {
    RingGadget { n, k: spec_log_ceil(2, q), base: 2, q }
}

/// The dimensions of a gadget trapdoor over the ring of the polynomials modulo
/// `X^n + 1` with coefficients modulo `q`.
///
/// Every value of this type is well formed.
#[derive(Clone, Copy, Debug)]
pub struct GadgetParametersRing {
    n: usize,
    k: usize,
    base: u64,
    q: u64,
}

impl View for GadgetParametersRing {
    type V = RingGadget;

    closed spec fn view(&self) -> RingGadget {
        RingGadget {
            n: self.n as int,
            k: self.k as int,
            base: self.base as int,
            q: self.q as int,
        }
    }
}

impl GadgetParametersRing {
    #[verifier::type_invariant]
    spec fn inv(self) -> bool {
        self@.well_formed()
    }

    /// The parameters for the base two and the least number of digits.
    ///
    /// Fails with `SecurityParameterTooSmall` where `n` is zero, and with
    /// `InvalidModulus` where `q` is no modulus.
    pub fn init_default(n: usize, q: u64) -> (out: Result<GadgetParametersRing, ParameterError>)
        ensures
            out is Ok <==> n >= 1 && is_modulus(q as int),
            out matches Ok(p) ==> p@ == default_ring_gadget(n as int, q as int)
                && p@.well_formed(),
            out matches Err(e) ==> e == (if n < 1 {
                ParameterError::SecurityParameterTooSmall
            } else {
                ParameterError::InvalidModulus
            }),
    {
        if n < 1 {
            return Err(ParameterError::SecurityParameterTooSmall);
        }
        if !check_modulus(q) {
            return Err(ParameterError::InvalidModulus);
        }
        let k: u32 = log_ceil(2, q);
        assert(k >= 1) by {
            if k == 0 {
                assert(pow(2, 0) == 1) by {
                    reveal(pow);
                }
            }
        }
        Ok(GadgetParametersRing { n, k: k as usize, base: 2, q })
    }

    /// The degree `n` of the ring.
    pub fn n(&self) -> (n: usize)
        ensures
            n == self@.n,
            self@.well_formed(),
    {
        proof {
            use_type_invariant(self);
        }
        self.n
    }

    /// The number `k` of digits.
    pub fn k(&self) -> (k: usize)
        ensures
            k == self@.k,
            self@.well_formed(),
    {
        proof {
            use_type_invariant(self);
        }
        self.k
    }

    /// The base of the digits.
    pub fn base(&self) -> (base: u64)
        ensures
            base == self@.base,
            self@.well_formed(),
    {
        proof {
            use_type_invariant(self);
        }
        self.base
    }

    /// The modulus `q` of the coefficients.
    pub fn q(&self) -> (q: u64)
        ensures
            q == self@.q,
            self@.well_formed(),
    {
        proof {
            use_type_invariant(self);
        }
        self.q
    }
}

} // verus!
