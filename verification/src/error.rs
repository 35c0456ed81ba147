//! The ways in which an operation of this crate can fail.

use vstd::prelude::*;

verus! {

/// A failure of a computation on matrices.
#[derive(Clone, Copy, Debug, PartialEq, Eq, Structural)]
pub enum MathError {
    /// The matrices do not have the dimensions that the operation needs.
    MismatchingMatrixDimension,
    /// The matrices are taken modulo different numbers.
    MismatchingModulus,
    /// A result does not fit the machine integers that hold the entries.
    Overflow,
    /// The modulus is below two, or too large for its residues to fit.
    InvalidModulus,
    /// A value that the backend returned is not what it should be.
    RejectedSample,
}

impl MathError {
    /// The sentence that describes the failure.
    pub open spec fn text(self) -> Seq<char> {
        match self {
            MathError::MismatchingMatrixDimension => {
                "the dimensions of the matrices do not fit the operation"@
            },
            MathError::MismatchingModulus => "the matrices are taken modulo different numbers"@,
            MathError::Overflow => "a result does not fit a machine integer"@,
            MathError::InvalidModulus => {
                "the modulus is below two or does not fit a machine integer"@
            },
            MathError::RejectedSample => {
                "the backend returned a value that is not what it should be"@
            },
        }
    }

    /// A sentence that describes the failure.
    pub fn message(&self) -> (text: &'static str)
        ensures
            text@ == self.text(),
    {
        match self {
            MathError::MismatchingMatrixDimension => {
                "the dimensions of the matrices do not fit the operation"
            },
            MathError::MismatchingModulus => "the matrices are taken modulo different numbers",
            MathError::Overflow => "a result does not fit a machine integer",
            MathError::InvalidModulus => {
                "the modulus is below two or does not fit a machine integer"
            },
            MathError::RejectedSample => {
                "the backend returned a value that is not what it should be"
            },
        }
    }
}

/// A parameter that a scheme or a gadget rejects.
#[derive(Clone, Copy, Debug, PartialEq, Eq, Structural)]
pub enum ParameterError {
    /// The security parameter `n` is zero.
    SecurityParameterTooSmall,
    /// The security parameter `n` is below two.
    SecurityParameterBelowTwo,
    /// The modulus `q` is below two, or too large for its residues to fit.
    InvalidModulus,
    /// The base of the gadget is below two.
    InvalidBase,
    /// The number `k` of digits is zero, or `base^k` does not reach `q`.
    TooFewDigits,
    /// The width `m_bar` of the uniform part is below `n * ceil(log2 q) + ceil(log2 n)^2`.
    MBarTooSmall,
    /// A dimension or an entry would not fit the machine integers.
    TooLarge,
    /// `q >= 5 * r * (m + 1)` does not hold, for the width `r` of the secret keys.
    ModulusBelowNoiseBound,
    /// `r >= sqrt(m)` does not hold.
    WidthBelowSqrtM,
    /// `r <= sqrt(m) + 1` does not hold.
    WidthAboveSqrtM,
    /// `m > (n + 1) * log2(q)` does not hold.
    DimensionBelowLogBound,
    /// `alpha <= 1 / (2 * r * sqrt(m + 1) * log2(n))` does not hold.
    NoiseAboveCorrectnessBound,
    /// A value that the backend returned is not what it should be.
    RejectedSample,
}

impl ParameterError {
    /// The sentence that describes the failure.
    pub open spec fn text(self) -> Seq<char> {
        match self {
            ParameterError::SecurityParameterTooSmall => "n must be chosen bigger than 0."@,
            ParameterError::SecurityParameterBelowTwo => "n must be chosen bigger than 1."@,
            ParameterError::InvalidModulus => {
                "the modulus q must be at least 2 and fit a machine integer"@
            },
            ParameterError::InvalidBase => "the base must be at least 2"@,
            ParameterError::TooFewDigits => "k must be at least 1 and base^k >= q is required"@,
            ParameterError::MBarTooSmall => {
                "m_bar >= n * ceil(log2 q) + ceil(log2 n)^2 is required"@
            },
            ParameterError::TooLarge => {
                "the dimensions or entries do not fit the machine integers"@
            },
            ParameterError::ModulusBelowNoiseBound => {
                "Security is not guaranteed as q < 5 * r * (m + 1), \
                but q >= 5 * r * (m + 1) is required."@
            },
            ParameterError::WidthBelowSqrtM => {
                "Security is not guaranteed as r < sqrt(m), but r >= sqrt(m) is required."@
            },
            ParameterError::WidthAboveSqrtM => {
                "The width is no square root of m as r > sqrt(m) + 1, \
                but r <= sqrt(m) + 1 is required."@
            },
            ParameterError::DimensionBelowLogBound => {
                "Security is not guaranteed as m <= (n + 1) * log(q), \
                but m > (n + 1) * log(q) is required."@
            },
            ParameterError::NoiseAboveCorrectnessBound => {
                "Correctness is not guaranteed as α > 1/(2 * r * sqrt(m + 1) * log(n)), \
                but α <= 1/(2 * r * sqrt(m + 1) * log(n)) is required."@
            },
            ParameterError::RejectedSample => {
                "the backend returned a value that is not what it should be"@
            },
        }
    }

    /// A sentence that describes the failure.
    pub fn message(&self) -> (text: &'static str)
        ensures
            text@ == self.text(),
    {
        match self {
            ParameterError::SecurityParameterTooSmall => "n must be chosen bigger than 0.",
            ParameterError::SecurityParameterBelowTwo => "n must be chosen bigger than 1.",
            ParameterError::InvalidModulus => {
                "the modulus q must be at least 2 and fit a machine integer"
            },
            ParameterError::InvalidBase => "the base must be at least 2",
            ParameterError::TooFewDigits => "k must be at least 1 and base^k >= q is required",
            ParameterError::MBarTooSmall => {
                "m_bar >= n * ceil(log2 q) + ceil(log2 n)^2 is required"
            },
            ParameterError::TooLarge => "the dimensions or entries do not fit the machine integers",
            ParameterError::ModulusBelowNoiseBound => {
                "Security is not guaranteed as q < 5 * r * (m + 1), \
                but q >= 5 * r * (m + 1) is required."
            },
            ParameterError::WidthBelowSqrtM => {
                "Security is not guaranteed as r < sqrt(m), but r >= sqrt(m) is required."
            },
            ParameterError::WidthAboveSqrtM => {
                "The width is no square root of m as r > sqrt(m) + 1, \
                but r <= sqrt(m) + 1 is required."
            },
            ParameterError::DimensionBelowLogBound => {
                "Security is not guaranteed as m <= (n + 1) * log(q), \
                but m > (n + 1) * log(q) is required."
            },
            ParameterError::NoiseAboveCorrectnessBound => {
                "Correctness is not guaranteed as α > 1/(2 * r * sqrt(m + 1) * log(n)), \
                but α <= 1/(2 * r * sqrt(m + 1) * log(n)) is required."
            },
            ParameterError::RejectedSample => {
                "the backend returned a value that is not what it should be"
            },
        }
    }
}

} // verus!
