//! Identity based encryption from the dual Regev encryption: the secret key of
//! an identity is a short preimage of the hash of the identity.

use crate::backend::Backend;
use crate::construction::hash::sha256::{hash_to_mat_zq_sha256, matrix_of};
use crate::construction::identity_based_encryption::IBEScheme;
use crate::construction::pk_encryption::dual_regev::{
    bit_of, cipher_of, dec_result, is_ciphertext, lemma_ciphertexts_decrypt,
    lemma_dual_regev_decrypts, noise_bound, noise_met, DualRegev, DualRegevModel,
};
use crate::construction::storage::{recall, Storage};
use crate::error::{MathError, ParameterError};
use crate::math::arith::{
    is_modulus, lemma_log_ceil_exists, lemma_sqrt_floor_exists, log_ceil, pow_at_most, product_le,
    spec_log_ceil, spec_sqrt_floor, sqrt_floor,
};
use crate::math::mat_z::{all_fit, MatZ};
use crate::math::mat_zq::MatZq;
use crate::math::model::{beside, entries_within, is_matrix, negation, width};
use crate::math::rational::{Fraction, Ratio, Rational};
use crate::primitive::psf::PSF;
use crate::primitive::psf::gpv::{gpv_image, gpv_in_domain, gpv_key_pair, PSFGPV};
use crate::sample::g_trapdoor::gadget_parameters::{
    default_error, default_gadget, Gadget, GadgetParameters,
};
use crate::value::Value;
use vstd::arithmetic::power::{lemma_pow0, lemma_pow1, lemma_pow_increases, pow};
use vstd::arithmetic::power2::{lemma2_to64, lemma_pow2};
use vstd::pervasive::unreached;
use vstd::prelude::*;

verus! {

/// What identifies a request for a secret key: the master keys and the identity.
pub type ExtractRequest = (MatZq, ((MatZ, MatZ), String));

/// The identity based encryption over the dual Regev encryption `dual_regev`
/// and the preimage sampleable function `psf`.
///
/// The scheme remembers every secret key that it has extracted: an identity
/// gets the same secret key under the same master keys each time.
pub struct DualRegevIBE<B: Backend> {
    /// The encryption of single bits.
    pub dual_regev: DualRegev,
    /// The preimage sampleable function that extracts the secret keys.
    pub psf: PSFGPV<B>,
    /// The secret keys extracted so far, by request.
    pub storage: Storage<ExtractRequest, MatZ>,
}

/// The public key of `identity` under the master public key: the master public
/// key with the hash of `identity` as one more column.
pub open spec fn identity_key(
    d: DualRegevModel,
    master_pk: Seq<Seq<int>>,
    identity: Seq<char>,
) -> Seq<Seq<int>> {
    beside(master_pk, matrix_of(identity, d.n, 1, d.q))
}

/// Extracted keys decrypt: a secret key `sk` that the master public key sends to
/// the hash of `identity` decrypts every ciphertext for `identity` to the bit
/// of its message, where the noise that `sk` meets in the ciphertext is less
/// than a quarter of the modulus.
pub proof fn lemma_extracted_keys_decrypt(
    d: DualRegevModel,
    master_pk: Seq<Seq<int>>,
    sk: Seq<Seq<int>>,
    identity: Seq<char>,
    s: Seq<Seq<int>>,
    e: Seq<Seq<int>>,
    message: int,
)
    requires
        is_modulus(d.q),
        d.n >= 1,
        d.m >= 1,
        is_matrix(master_pk, d.n, d.m),
        is_matrix(sk, d.m, 1),
        all_fit(negation(sk)),
        gpv_image((d.q, master_pk), sk) == (d.q, matrix_of(identity, d.n, 1, d.q)),
        is_matrix(s, 1, d.n),
        is_matrix(e, 1, d.m + 1),
        -(d.q / 2) < 2 * noise_met(e, sk) < d.q / 2,
    ensures
        dec_result(
            d,
            sk,
            (d.q, cipher_of(d.q, identity_key(d, master_pk, identity), message, s, e)),
        ) == Ok::<i64, MathError>(bit_of(message) as i64),
{
    lemma_dual_regev_decrypts(d, master_pk, sk, s, e, message);
}

/// Ciphertexts for an identity decrypt under its keys: a secret key `sk` with
/// entries up to `size` that the master public key sends to the hash of
/// `identity` decrypts every ciphertext of a message for `identity` to the bit
/// of the message, where `m + 1` times the bound of the noise times `size` is
/// less than a quarter of the modulus.
pub proof fn lemma_identity_ciphertexts_decrypt(
    d: DualRegevModel,
    master_pk: Seq<Seq<int>>,
    sk: Seq<Seq<int>>,
    identity: Seq<char>,
    message: int,
    cipher: Seq<Seq<int>>,
    size: int,
)
    requires
        is_modulus(d.q),
        d.n >= 1,
        d.m >= 1,
        is_matrix(master_pk, d.n, d.m),
        is_matrix(sk, d.m, 1),
        1 <= size <= i64::MAX,
        entries_within(sk, -size, size),
        noise_bound(d) >= 0,
        2 * ((d.m + 1) * (noise_bound(d) * size)) < d.q / 2,
        gpv_image((d.q, master_pk), sk) == (d.q, matrix_of(identity, d.n, 1, d.q)),
        is_ciphertext(d, identity_key(d, master_pk, identity), message, (d.q, cipher)),
    ensures
        dec_result(d, sk, (d.q, cipher)) == Ok::<i64, MathError>(bit_of(message) as i64),
{
    lemma_ciphertexts_decrypt(d, master_pk, sk, message, cipher, size);
}

/// The request for the secret key of `identity` under the master keys.
pub open spec fn request_of(
    master_pk: (int, Seq<Seq<int>>),
    master_sk: (Seq<Seq<int>>, Seq<Seq<int>>),
    identity: Seq<char>,
) -> ((int, Seq<Seq<int>>), ((Seq<Seq<int>>, Seq<Seq<int>>), Seq<char>)) {
    (master_pk, (master_sk, identity))
}

impl<B: Backend> DualRegevIBE<B> {
    /// `sk` is a secret key of `identity` under the master public key: it
    /// belongs to the domain of the preimage sampleable function, and the master
    /// public key sends it to the hash of `identity`.
    pub open spec fn is_key_of(
        &self,
        master_pk: (int, Seq<Seq<int>>),
        identity: Seq<char>,
        sk: Seq<Seq<int>>,
    ) -> bool {
        &&& gpv_in_domain(self.psf.gp@, self.psf.s@, sk)
        &&& width(master_pk.1) == sk.len()
        &&& gpv_image(master_pk, sk) == (
            self.dual_regev@.q,
            matrix_of(identity, self.dual_regev@.n, 1, self.dual_regev@.q),
        )
    }

    /// Every secret key that is kept is a secret key of its identity under its
    /// master public key. Every scheme that `new` builds is so, and `extract`
    /// keeps it so.
    pub open spec fn well_kept(&self) -> bool {
        forall|
            master_pk: (int, Seq<Seq<int>>),
            master_sk: (Seq<Seq<int>>, Seq<Seq<int>>),
            identity: Seq<char>,
        |
            self.storage@.dom().contains(request_of(master_pk, master_sk, identity))
                ==> self.is_key_of(
                master_pk,
                identity,
                #[trigger] self.storage@[request_of(master_pk, master_sk, identity)],
            )
    }

    /// The scheme for the security parameter `n`, the modulus `q`, the width `r`
    /// of the secret keys and the noise rate `alpha`, over the default gadget
    /// for `n` and `q`.
    ///
    /// Fails as `GadgetParameters::init_default` does, and with `TooLarge` where
    /// the width of the gadget plus one does not fit.
    pub fn new(n: usize, q: u64, r: Rational, alpha: Fraction, backend: B) -> (out: Result<
        Self,
        ParameterError,
    >)
        ensures
            out matches Ok(ibe) ==> {
                &&& ibe.psf.gp@ == default_gadget(n as int, q as int)
                &&& ibe.psf.s@ == r@
                &&& ibe.psf.backend == backend
                &&& ibe.dual_regev@ == (DualRegevModel {
                    n: n as int,
                    m: default_gadget(n as int, q as int).m(),
                    q: q as int,
                    alpha: alpha@,
                })
                &&& ibe.storage@ == Map::<
                    ((int, Seq<Seq<int>>), ((Seq<Seq<int>>, Seq<Seq<int>>), Seq<char>)),
                    Seq<Seq<int>>,
                >::empty()
                &&& ibe.well_kept()
            },
            out is Ok <==> n >= 1 && is_modulus(q as int) && default_gadget(
                n as int,
                q as int,
            ).fits() && default_gadget(n as int, q as int).m() < usize::MAX,
            out matches Err(e) ==> e == default_error(n as int, q as int),
    {
        let gadget: GadgetParameters = match GadgetParameters::init_default(n, q) {
            Ok(g) => g,
            Err(e) => {
                return Err(e);
            },
        };
        let m: usize = gadget.m();
        let dual_regev: DualRegev = match DualRegev::new(n, m, q, alpha) {
            Ok(d) => d,
            Err(e) => {
                return Err(e);
            },
        };
        let psf = PSFGPV { gp: gadget, s: r, backend };
        Ok(DualRegevIBE { dual_regev, psf, storage: Storage::new() })
    }
}

/// The exponent `p` for which the modulus of the scheme for `n` is chosen up to
/// `n^p`.
pub open spec fn modulus_exponent(n: int) -> nat {
    if n <= 3 {
        10
    } else if n == 4 {
        7
    } else if n <= 7 {
        6
    } else {
        5
    }
}

/// The greatest modulus that the scheme for `n` is given: `n^p`.
pub open spec fn modulus_upper(n: int) -> int {
    pow(n, modulus_exponent(n))
}

/// The least modulus that the scheme for `n` is given: half of `n^p`, rounded up.
pub open spec fn modulus_lower(n: int) -> int {
    (modulus_upper(n) + 1) / 2
}

/// The range from which the modulus of the scheme for `n` is chosen: from half
/// of `n^p`, rounded up, to `n^p`, with `p` ten for `n` up to three, seven for
/// four, six for five to seven, and five above.
///
/// Fails with `SecurityParameterBelowTwo` where `n` is below two, and with
/// `TooLarge` where `n^p` is no modulus.
pub fn modulus_range(n: usize) -> (out: Result<(u64, u64), ParameterError>)
    ensures
        out is Ok <==> n >= 2 && modulus_upper(n as int) <= i64::MAX,
        out matches Ok((lower, upper)) ==> lower == modulus_lower(n as int) && upper
            == modulus_upper(n as int) && 2 <= lower <= upper,
        out matches Err(e) ==> e == (if n < 2 {
            ParameterError::SecurityParameterBelowTwo
        } else {
            ParameterError::TooLarge
        }),
{
    if n < 2 {
        return Err(ParameterError::SecurityParameterBelowTwo);
    }
    let power: usize = if n <= 3 {
        10
    } else if n == 4 {
        7
    } else if n <= 7 {
        6
    } else {
        5
    };
    if !pow_at_most(n as u64, power, 0x7fff_ffff_ffff_ffff) {
        return Err(ParameterError::TooLarge);
    }
    let mut upper: u64 = 1;
    let mut i: usize = 0;
    proof {
        lemma_pow0(n as int);
    }
    while i < power
        invariant
            i <= power,
            n >= 2,
            upper == pow(n as int, i as nat),
            upper >= 1,
            pow(n as int, power as nat) <= i64::MAX,
        decreases power - i,
    {
        proof {
            reveal(pow);
            lemma_pow_increases(n as nat, (i + 1) as nat, power as nat);
            assert(n * upper == upper * n && upper * n >= 1) by (nonlinear_arith)
                requires
                    n >= 2,
                    upper >= 1,
            ;
        }
        upper = upper * (n as u64);
        i += 1;
    }
    proof {
        lemma_pow_increases(n as nat, 2, power as nat);
        lemma_pow1(n as int);
        assert(pow(n as int, 2) == n * pow(n as int, 1)) by {
            reveal(pow);
        }
        assert(n * n >= 4) by (nonlinear_arith)
            requires
                n >= 2,
        ;
    }
    let lower: u64 = (upper + 1) / 2;
    Ok((lower, upper))
}

/// The noise rate `1 / (2 * r * t * l)`, kept exactly.
pub open spec fn noise_rate_of(r: Ratio, t: Ratio, l: Ratio) -> Ratio {
    Ratio { num: r.den * t.den * l.den, den: 2 * (r.num * t.num * l.num) }
}

/// The noise rate `alpha = 1 / (2 * r * t * l)` for the width `r` of the secret
/// keys, the square root `t` of `m + 1` and the logarithm `l` of `n`.
///
/// Nothing where one of `r`, `t` and `l` is zero.
pub fn noise_rate(r: &Rational, t: &Rational, l: &Rational) -> (out: Option<Fraction>)
    ensures
        out is Some <==> r@.num * t@.num * l@.num > 0,
        out matches Some(alpha) ==> alpha@ == noise_rate_of(r@, t@, l@),
        r@.den >= 1 && t@.den >= 1 && l@.den >= 1,
{
    let rn: u128 = r.num() as u128;
    let tn: u128 = t.num() as u128;
    let ln: u128 = l.num() as u128;
    let rd: u128 = r.den() as u128;
    let td: u128 = t.den() as u128;
    let ld: u128 = l.den() as u128;
    assert(0 <= rn * tn * ln <= 0xffff_ffff * 0xffff_ffff * 0xffff_ffff) by (nonlinear_arith)
        requires
            0 <= rn <= 0xffff_ffff,
            0 <= tn <= 0xffff_ffff,
            0 <= ln <= 0xffff_ffff,
    ;
    assert(0 <= rn * tn <= 0xffff_ffff * 0xffff_ffff) by (nonlinear_arith)
        requires
            0 <= rn <= 0xffff_ffff,
            0 <= tn <= 0xffff_ffff,
    ;
    assert(0 <= rd * td * ld <= 0xffff_ffff * 0xffff_ffff * 0xffff_ffff) by (nonlinear_arith)
        requires
            0 <= rd <= 0xffff_ffff,
            0 <= td <= 0xffff_ffff,
            0 <= ld <= 0xffff_ffff,
    ;
    assert(0 <= rd * td <= 0xffff_ffff * 0xffff_ffff) by (nonlinear_arith)
        requires
            0 <= rd <= 0xffff_ffff,
            0 <= td <= 0xffff_ffff,
    ;
    Fraction::new(rd * td * ld, 2 * (rn * tn * ln))
}

/// The logarithm of `q` to the base two, rounded down.
pub open spec fn log_floor_2(q: int) -> int {
    if pow(2, spec_log_ceil(2, q) as nat) == q {
        spec_log_ceil(2, q)
    } else {
        spec_log_ceil(2, q) - 1
    }
}

/// The reason for which the parameters are not secure, if any: the first of the
/// requirements `q >= 5 * s * (m + 1)`, `s >= sqrt(m)` and `m > (n + 1) * log2(q)`
/// that does not hold.
///
/// The first two are decided exactly, the second as `s^2 >= m`. The third holds
/// where `m` is above `n + 1` times the logarithm rounded up, and does not hold
/// where `m` is at most `n + 1` times the logarithm rounded down; only between
/// the two the value `log_q` of the logarithm decides.
pub open spec fn security_error(d: DualRegevModel, s: Ratio, log_q: Ratio) -> Option<
    ParameterError,
> {
    if d.q * s.den < 5 * s.num * (d.m + 1) {
        Some(ParameterError::ModulusBelowNoiseBound)
    } else if s.num * s.num < d.m * (s.den * s.den) {
        Some(ParameterError::WidthBelowSqrtM)
    } else if d.m > (d.n + 1) * spec_log_ceil(2, d.q) {
        None
    } else if d.m <= (d.n + 1) * log_floor_2(d.q) {
        Some(ParameterError::DimensionBelowLogBound)
    } else if d.m * log_q.den <= (d.n + 1) * log_q.num {
        Some(ParameterError::DimensionBelowLogBound)
    } else {
        None
    }
}

/// The square root of `x`, rounded up.
pub open spec fn sqrt_ceil(x: int) -> int {
    if spec_sqrt_floor(x) * spec_sqrt_floor(x) == x {
        spec_sqrt_floor(x)
    } else {
        spec_sqrt_floor(x) + 1
    }
}

/// The reason for which decryption is not known to be correct, if any: `n` is
/// below two, or `alpha <= 1 / (2 * s * sqrt(m + 1) * log2(n))` does not hold.
///
/// The bound holds where it holds with the root and the logarithm rounded up,
/// and does not hold where it does not with both rounded down; only between the
/// two the values `sqrt_m1` and `log_n` of the root and the logarithm decide.
pub open spec fn correctness_error(
    d: DualRegevModel,
    s: Ratio,
    sqrt_m1: Ratio,
    log_n: Ratio,
) -> Option<ParameterError> {
    if d.n <= 1 {
        Some(ParameterError::SecurityParameterBelowTwo)
    } else if d.alpha.num * (2 * (s.num * sqrt_ceil(d.m + 1) * spec_log_ceil(2, d.n)))
        <= d.alpha.den * s.den {
        None
    } else if d.alpha.num * (2 * (s.num * spec_sqrt_floor(d.m + 1) * log_floor_2(d.n)))
        > d.alpha.den * s.den {
        Some(ParameterError::NoiseAboveCorrectnessBound)
    } else if d.alpha.num * (2 * (s.num * sqrt_m1.num * log_n.num)) > d.alpha.den * (s.den
        * sqrt_m1.den * log_n.den) {
        Some(ParameterError::NoiseAboveCorrectnessBound)
    } else {
        None
    }
}

/// The derived noise rate is correct: with the noise rate that `noise_rate`
/// derives from the width `s`, a square root `t` and a logarithm `l` that are
/// not below the true ones rounded down, the check of correctness against the
/// same `t` and `l` finds no fault, for every `n` from two on.
pub proof fn lemma_derived_noise_rate_is_correct(d: DualRegevModel, s: Ratio, t: Ratio, l: Ratio)
    requires
        d.n >= 2,
        d.m >= 0,
        s.num * t.num * l.num > 0,
        s.num >= 0,
        t.num >= 0,
        l.num >= 0,
        s.den >= 1,
        t.den >= 1,
        l.den >= 1,
        t.num >= spec_sqrt_floor(d.m + 1) * t.den,
        l.num >= log_floor_2(d.n) * l.den,
        d.alpha == noise_rate_of(s, t, l),
    ensures
        correctness_error(d, s, t, l) is None,
{
    let f = spec_sqrt_floor(d.m + 1);
    let lo = log_floor_2(d.n);
    lemma_sqrt_floor_exists(d.m + 1);
    lemma_log_ceil_exists(2, d.n);
    let an = d.alpha.num;
    let ad = d.alpha.den;
    let dens = t.den * l.den;
    let nums = t.num * l.num;
    assert(dens >= 1 && nums >= 0) by (nonlinear_arith)
        requires
            dens == t.den * l.den,
            nums == t.num * l.num,
            t.den >= 1,
            l.den >= 1,
            t.num >= 0,
            l.num >= 0,
    ;
    assert((f * lo) * dens <= nums) by (nonlinear_arith)
        requires
            dens == t.den * l.den,
            nums == t.num * l.num,
            t.num >= f * t.den,
            l.num >= lo * l.den,
            f >= 0,
            lo >= 0,
            t.den >= 1,
            l.den >= 1,
    ;
    // what the values given decide: the bound is met with equality
    assert(an * (2 * (s.num * t.num * l.num)) == ad * (s.den * t.den * l.den))
        by (nonlinear_arith)
        requires
            an == s.den * t.den * l.den,
            ad == 2 * (s.num * t.num * l.num),
    ;
    // rounded down, the root and the logarithm do not decide against it
    let w = s.den * s.num;
    assert(w >= 0) by (nonlinear_arith)
        requires
            w == s.den * s.num,
            s.den >= 1,
            s.num >= 0,
    ;
    let fl = f * lo;
    let sd = s.den;
    let sn = s.num;
    assert(an == sd * dens) by (nonlinear_arith)
        requires
            an == s.den * t.den * l.den,
            dens == t.den * l.den,
            sd == s.den,
    ;
    assert(sn * f * lo == sn * fl) by (nonlinear_arith)
        requires
            fl == f * lo,
    ;
    assert((sd * dens) * (2 * (sn * fl)) == 2 * ((sd * sn) * (fl * dens))) by (nonlinear_arith);
    assert(an * (2 * (s.num * f * lo)) == 2 * (w * ((f * lo) * dens)));
    assert(ad * s.den == 2 * (w * nums)) by (nonlinear_arith)
        requires
            ad == 2 * (s.num * t.num * l.num),
            nums == t.num * l.num,
            w == s.den * s.num,
    ;
    assert(2 * (w * ((f * lo) * dens)) <= 2 * (w * nums)) by (nonlinear_arith)
        requires
            (f * lo) * dens <= nums,
            w >= 0,
    ;
}

/// `s` is at most one above the square root of `m`.
pub open spec fn near_root(s: Ratio, m: int) -> bool {
    s.num <= s.den || (s.num - s.den) * (s.num - s.den) <= m * (s.den * s.den)
}

/// `t` stands for the square root of `x`: it is at least the root and at most
/// one above it.
pub open spec fn is_root(t: Ratio, x: int) -> bool {
    &&& t.num * t.num >= x * (t.den * t.den)
    &&& near_root(t, x)
}

/// `l` stands for the logarithm of `n` to the base two: it lies between the
/// logarithm rounded down and the logarithm rounded up.
pub open spec fn is_logarithm(l: Ratio, n: int) -> bool {
    log_floor_2(n) * l.den <= l.num <= spec_log_ceil(2, n) * l.den
}

/// Tells whether `t` is at least the square root of `x`.
pub fn reaches_root(t: &Rational, x: u64) -> (yes: bool)
    ensures
        yes <==> t@.num * t@.num >= x * (t@.den * t@.den),
        t@.num >= 0 && t@.den >= 1,
        yes && x >= 1 ==> t@.num >= 1,
{
    let num: u128 = t.num() as u128;
    let den: u128 = t.den() as u128;
    assert(num * num <= 0xffff_ffff * 0xffff_ffff) by (nonlinear_arith)
        requires
            0 <= num <= 0xffff_ffff,
    ;
    assert(1 <= den * den <= 0xffff_ffff * 0xffff_ffff) by (nonlinear_arith)
        requires
            1 <= den <= 0xffff_ffff,
    ;
    assert(x * (den * den) <= 0xffff_ffff_ffff_ffff * (0xffff_ffff * 0xffff_ffff))
        by (nonlinear_arith)
        requires
            0 <= x <= 0xffff_ffff_ffff_ffff,
            0 <= den * den <= 0xffff_ffff * 0xffff_ffff,
    ;
    assert(x >= 1 ==> x * (den * den) >= 1) by (nonlinear_arith)
        requires
            den * den >= 1,
    ;
    assert(num == 0 ==> num * num == 0) by (nonlinear_arith);
    num * num >= (x as u128) * (den * den)
}

/// Tells whether `t` is at most one above the square root of `x`.
pub fn stays_near_root(t: &Rational, x: u64) -> (yes: bool)
    ensures
        yes <==> near_root(t@, x as int),
{
    let num: u128 = t.num() as u128;
    let den: u128 = t.den() as u128;
    if num <= den {
        return true;
    }
    let above: u128 = num - den;
    assert(above * above <= 0xffff_ffff * 0xffff_ffff) by (nonlinear_arith)
        requires
            0 <= above <= 0xffff_ffff,
    ;
    assert(den * den <= 0xffff_ffff * 0xffff_ffff) by (nonlinear_arith)
        requires
            0 <= den <= 0xffff_ffff,
    ;
    assert(x * (den * den) <= 0xffff_ffff_ffff_ffff * (0xffff_ffff * 0xffff_ffff))
        by (nonlinear_arith)
        requires
            0 <= x <= 0xffff_ffff_ffff_ffff,
            0 <= den * den <= 0xffff_ffff * 0xffff_ffff,
    ;
    above * above <= (x as u128) * (den * den)
}

/// The logarithm of `x` to the base two, rounded down and rounded up.
pub fn log_bounds(x: u64) -> (out: (u32, u32))
    requires
        x >= 2,
    ensures
        out.0 == log_floor_2(x as int),
        out.1 == spec_log_ceil(2, x as int),
        1 <= out.0 <= out.1 <= 64,
{
    let above: u32 = log_ceil(2, x);
    proof {
        lemma_pow0(2);
        lemma_pow1(2);
    }
    let below: u32 = if pow_at_most(2, above as usize, x) {
        above
    } else {
        above - 1
    };
    (below, above)
}

/// The default parameters are secure: for the security parameter four, every
/// modulus of its range and every width that is at least the square root of
/// `m` and at most one above it, the check of security finds no fault,
/// whatever the noise rate is and whatever is given as the logarithm.
pub proof fn lemma_default_parameters_are_secure(q: int, s: Ratio, alpha: Ratio, log_q: Ratio)
    requires
        modulus_lower(4) <= q <= modulus_upper(4),
        s.num >= 0,
        s.den >= 1,
        s.num * s.num >= default_gadget(4, q).m() * (s.den * s.den),
        near_root(s, default_gadget(4, q).m()),
    ensures
        security_error(
            DualRegevModel { n: 4, m: default_gadget(4, q).m(), q, alpha },
            s,
            log_q,
        ) is None,
{
    assert(pow(4, 7) == 16384) by {
        reveal_with_fuel(pow, 8);
    }
    lemma2_to64();
    lemma_pow2(0);
    lemma_pow2(1);
    lemma_pow2(2);
    lemma_pow2(12);
    lemma_pow2(14);
    let k = spec_log_ceil(2, q);
    let c = spec_log_ceil(2, 4);
    lemma_log_ceil_exists(2, q);
    lemma_log_ceil_exists(2, 4);
    if k > 14 {
        assert(pow(2, 14int as nat) < q);
    }
    if k <= 12 {
        lemma_pow_increases(2, k as nat, 12);
    }
    if c > 2 {
        assert(pow(2, 2int as nat) < 4);
    }
    if c <= 1 {
        lemma_pow_increases(2, c as nat, 1);
    }
    let m = default_gadget(4, q).m();
    assert(m == 8 * k + 4) by (nonlinear_arith)
        requires
            m == (4 * k + c * c) + 4 * k,
            c == 2,
    ;
    let den = s.den;
    let above = s.num - s.den;
    if above > 0 {
        assert(above < 11 * den) by (nonlinear_arith)
            requires
                above * above <= m * (den * den),
                m <= 116,
                den >= 1,
                above > 0,
        ;
    }
    assert(5 * s.num * (m + 1) <= q * den) by (nonlinear_arith)
        requires
            0 <= s.num < 12 * den,
            108 <= m <= 116,
            q >= 8192,
            den >= 1,
    ;
}

/// What `new_from_n` settles on for the modulus `q`, the square roots `r` of `m`
/// and `t` of `m + 1` and the logarithm `l` of `n` that it is given: the
/// parameters of the encryption, the gadget and the width of the secret keys, or
/// the first requirement, in this order, that is not met.
///
/// The roots are to be at least the true ones and at most one above them, and
/// the logarithm between the true one rounded down and rounded up. A root of
/// `m + 1` or a logarithm below that would give a noise rate above the bound of
/// correctness.
pub open spec fn derived_parameters(n: int, q: int, r: Ratio, t: Ratio, l: Ratio) -> Result<
    (DualRegevModel, Gadget, Ratio),
    ParameterError,
> {
    let gadget = default_gadget(n, q);
    if n < 2 {
        Err(ParameterError::SecurityParameterBelowTwo)
    } else if modulus_upper(n) > i64::MAX {
        Err(ParameterError::TooLarge)
    } else if q < modulus_lower(n) || q > modulus_upper(n) {
        Err(ParameterError::InvalidModulus)
    } else if !gadget.fits() || gadget.m() >= usize::MAX {
        Err(ParameterError::TooLarge)
    } else if r.num * r.num < gadget.m() * (r.den * r.den) {
        Err(ParameterError::WidthBelowSqrtM)
    } else if !near_root(r, gadget.m()) {
        Err(ParameterError::WidthAboveSqrtM)
    } else if t.num * t.num < (gadget.m() + 1) * (t.den * t.den) || l.num < log_floor_2(n)
        * l.den {
        Err(ParameterError::NoiseAboveCorrectnessBound)
    } else if !near_root(t, gadget.m() + 1) || l.num > spec_log_ceil(2, n) * l.den {
        Err(ParameterError::RejectedSample)
    } else {
        Ok(
            (
                DualRegevModel { n, m: gadget.m(), q, alpha: noise_rate_of(r, t, l) },
                gadget,
                r,
            ),
        )
    }
}

impl<B: Backend> DualRegevIBE<B> {
    /// `out` is the error that is expected, or a scheme without secret keys that
    /// has the parameters, the gadget and the width that are expected.
    pub open spec fn is_outcome(
        out: Result<Self, ParameterError>,
        expected: Result<(DualRegevModel, Gadget, Ratio), ParameterError>,
    ) -> bool {
        match (out, expected) {
            (Ok(ibe), Ok((d, gadget, s))) => {
                &&& ibe.dual_regev@ == d
                &&& ibe.psf.gp@ == gadget
                &&& ibe.psf.s@ == s
                &&& ibe.storage@ == Map::<
                    ((int, Seq<Seq<int>>), ((Seq<Seq<int>>, Seq<Seq<int>>), Seq<char>)),
                    Seq<Seq<int>>,
                >::empty()
            },
            (Err(e), Err(f)) => e == f,
            _ => false,
        }
    }

    /// The noise rate of `d` is `1 / (2 * s * t * l)` for a square root `t` of
    /// `m + 1` and a logarithm `l` of `n`, and the check of correctness finds no
    /// fault in it where it is given `t` and `l`.
    pub open spec fn is_derived_rate(d: DualRegevModel, s: Ratio, t: Ratio, l: Ratio) -> bool {
        &&& d.alpha == noise_rate_of(s, t, l)
        &&& t.den >= 1 && l.den >= 1
        &&& is_root(t, d.m + 1)
        &&& is_logarithm(l, d.n)
        &&& correctness_error(d, s, t, l) is None
    }

    /// The scheme for the security parameter `n` and the modulus `q`, with the
    /// width `r` of the secret keys and the noise rate `1 / (2 * r * t * l)`, for
    /// the square roots `r` of `m` and `t` of `m + 1` and the logarithm `l` of
    /// `n` to the base two.
    ///
    /// Fails with `SecurityParameterBelowTwo` where `n` is below two, with
    /// `InvalidModulus` where `q` is not in `modulus_range(n)`, with `TooLarge`
    /// where the range or the gadget does not fit, with `WidthBelowSqrtM` where
    /// `r^2` is below `m`, with `WidthAboveSqrtM` where `r` is more than one
    /// above the square root of `m`, with `NoiseAboveCorrectnessBound` where
    /// `t^2` is below `m + 1` or `l` is below the logarithm rounded down, and with
    /// `RejectedSample` where `t` is more than one above the square root of
    /// `m + 1` or `l` is above the logarithm rounded up.
    pub fn new_from_values(
        n: usize,
        q: u64,
        r: Rational,
        t: &Rational,
        l: &Rational,
        backend: B,
    ) -> (out: Result<Self, ParameterError>)
        ensures
            Self::is_outcome(out, derived_parameters(n as int, q as int, r@, t@, l@)),
            out matches Ok(ibe) ==> ibe.psf.backend == backend && r@.num >= 1 && r@.den >= 1
                && Self::is_derived_rate(ibe.dual_regev@, r@, t@, l@),
    {
        let (lower, upper) = match modulus_range(n) {
            Ok(range) => range,
            Err(e) => {
                return Err(e);
            },
        };
        if q < lower || q > upper {
            return Err(ParameterError::InvalidModulus);
        }
        let gadget: GadgetParameters = match GadgetParameters::init_default(n, q) {
            Ok(g) => g,
            Err(e) => {
                return Err(e);
            },
        };
        let m: usize = gadget.m();
        if m == usize::MAX {
            return Err(ParameterError::TooLarge);
        }
        if !reaches_root(&r, m as u64) {
            return Err(ParameterError::WidthBelowSqrtM);
        }
        if !stays_near_root(&r, m as u64) {
            return Err(ParameterError::WidthAboveSqrtM);
        }
        let (below, above) = log_bounds(n as u64);
        let ln: u64 = l.num() as u64;
        let ld: u64 = l.den() as u64;
        assert(below * ld <= above * ld <= 64 * 0xffff_ffff) by (nonlinear_arith)
            requires
                0 <= below <= above <= 64,
                0 <= ld <= 0xffff_ffff,
        ;
        if !reaches_root(t, (m + 1) as u64) || ln < (below as u64) * ld {
            return Err(ParameterError::NoiseAboveCorrectnessBound);
        }
        if !stays_near_root(t, (m + 1) as u64) || ln > (above as u64) * ld {
            return Err(ParameterError::RejectedSample);
        }
        assert(ln >= 1) by (nonlinear_arith)
            requires
                ln >= below * ld,
                below >= 1,
                ld >= 1,
        ;
        assert(r@.num * t@.num * l@.num > 0) by (nonlinear_arith)
            requires
                r@.num >= 1,
                t@.num >= 1,
                l@.num >= 1,
        ;
        proof {
            let d = DualRegevModel {
                n: n as int,
                m: m as int,
                q: q as int,
                alpha: noise_rate_of(r@, t@, l@),
            };
            let x = m + 1;
            let floor = spec_sqrt_floor(x);
            let (tn, td) = (t@.num, t@.den);
            lemma_sqrt_floor_exists(x);
            assert(tn >= floor * td) by (nonlinear_arith)
                requires
                    tn * tn >= x * (td * td),
                    floor * floor <= x,
                    floor >= 0,
                    tn >= 0,
                    td >= 1,
            ;
            lemma_derived_noise_rate_is_correct(d, r@, t@, l@);
        }
        match noise_rate(&r, t, l) {
            Some(alpha) => DualRegevIBE::new(n, q, r, alpha, backend),
            None => unreached(),
        }
    }

    /// The scheme for the security parameter `n`, with a modulus chosen from
    /// `modulus_range(n)`, the width `r = sqrt(m)` of the secret keys and the
    /// noise rate `alpha = 1 / (2 * r * sqrt(m + 1) * log2(n))`.
    ///
    /// The backend is asked for a prime in the range, for the square roots of
    /// `m` and `m + 1` and for the logarithm of `n`. What comes of its answers is
    /// what `new_from_values` returns for them. That the modulus lies in the
    /// range, that each root is at least the true one and at most one above it,
    /// and that the logarithm lies between the true one rounded down and rounded
    /// up, is tested; that the modulus is a prime is the word of the backend.
    pub fn new_from_n(n: usize, backend: B) -> (out: Result<Self, ParameterError>)
        ensures
            exists|q: int, r: Ratio, t: Ratio, l: Ratio|
                Self::is_outcome(out, #[trigger] derived_parameters(n as int, q, r, t, l)),
            n < 2 ==> out == Err::<Self, ParameterError>(
                ParameterError::SecurityParameterBelowTwo,
            ),
            n >= 2 && modulus_upper(n as int) > i64::MAX ==> out == Err::<Self, ParameterError>(
                ParameterError::TooLarge,
            ),
            out matches Ok(ibe) ==> {
                &&& modulus_lower(n as int) <= ibe.dual_regev@.q <= modulus_upper(n as int)
                &&& ibe.psf.gp@ == default_gadget(n as int, ibe.dual_regev@.q)
                &&& ibe.dual_regev@.n == n
                &&& ibe.dual_regev@.m == ibe.psf.gp@.m()
                &&& ibe.psf.s@.num * ibe.psf.s@.num >= ibe.dual_regev@.m * (ibe.psf.s@.den
                    * ibe.psf.s@.den)
                &&& near_root(ibe.psf.s@, ibe.dual_regev@.m)
                &&& ibe.psf.s@.num >= 0 && ibe.psf.s@.den >= 1
                &&& ibe.psf.backend == backend
                &&& ibe.storage@.dom() == Set::<
                    ((int, Seq<Seq<int>>), ((Seq<Seq<int>>, Seq<Seq<int>>), Seq<char>)),
                >::empty()
                &&& exists|t: Ratio, l: Ratio|
                    Self::is_derived_rate(ibe.dual_regev@, ibe.psf.s@, t, l)
            },
    {
        let ghost none = Ratio { num: 0, den: 1 };
        let (lower, upper) = match modulus_range(n) {
            Ok(range) => range,
            Err(e) => {
                let out = Err(e);
                assert(Self::is_outcome(out, derived_parameters(n as int, 0, none, none, none)));
                return out;
            },
        };
        let q: u64 = backend.prime(lower, upper);
        let m: usize = match GadgetParameters::init_default(n, q) {
            Ok(gadget) => gadget.m(),
            Err(_) => usize::MAX,
        };
        if q < lower || q > upper || m == usize::MAX {
            let out = DualRegevIBE::new_from_values(
                n,
                q,
                Rational::from_integer(0),
                &Rational::from_integer(0),
                &Rational::from_integer(0),
                backend,
            );
            return out;
        }
        let r: Rational = backend.sqrt(m as u64);
        let t: Rational = backend.sqrt((m + 1) as u64);
        let l: Rational = backend.log2(n as u64);
        let out = DualRegevIBE::new_from_values(n, q, r, &t, &l, backend);
        proof {
            assert(Self::is_outcome(out, derived_parameters(n as int, q as int, r@, t@, l@)));
            if out is Ok {
                let ibe = out->Ok_0;
                assert(Self::is_derived_rate(ibe.dual_regev@, ibe.psf.s@, t@, l@));
            }
        }
        out
    }

    /// The scheme for the security parameter four, which is too small to be
    /// secure, but quick: what `new_from_n` returns for four. Its parameters
    /// pass the check of security, whatever the backend answers there.
    pub fn new_default(backend: B) -> (out: Result<Self, ParameterError>)
        ensures
            exists|q: int, r: Ratio, t: Ratio, l: Ratio|
                Self::is_outcome(out, #[trigger] derived_parameters(4, q, r, t, l)),
            out matches Ok(ibe) ==> {
                &&& modulus_lower(4) <= ibe.dual_regev@.q <= modulus_upper(4)
                &&& ibe.psf.gp@ == default_gadget(4, ibe.dual_regev@.q)
                &&& ibe.dual_regev@.n == 4
                &&& ibe.dual_regev@.m == ibe.psf.gp@.m()
                &&& ibe.psf.s@.num * ibe.psf.s@.num >= ibe.dual_regev@.m * (ibe.psf.s@.den
                    * ibe.psf.s@.den)
                &&& near_root(ibe.psf.s@, ibe.dual_regev@.m)
                &&& ibe.psf.s@.num >= 0 && ibe.psf.s@.den >= 1
                &&& ibe.psf.backend == backend
                &&& ibe.storage@.dom() == Set::<
                    ((int, Seq<Seq<int>>), ((Seq<Seq<int>>, Seq<Seq<int>>), Seq<char>)),
                >::empty()
                &&& exists|t: Ratio, l: Ratio|
                    Self::is_derived_rate(ibe.dual_regev@, ibe.psf.s@, t, l)
            },
            out matches Ok(ibe) ==> forall|log_q: Ratio| #[trigger]
                security_error(ibe.dual_regev@, ibe.psf.s@, log_q) is None,
    {
        let out = DualRegevIBE::new_from_n(4, backend);
        proof {
            if out is Ok {
                let d = out->Ok_0.dual_regev@;
                let s = out->Ok_0.psf.s@;
                assert forall|log_q: Ratio| #[trigger] security_error(d, s, log_q) is None by {
                    lemma_default_parameters_are_secure(d.q, s, d.alpha, log_q);
                }
            }
        }
        out
    }

    /// Checks the security of the parameters: `q >= 5 * s * (m + 1)`,
    /// `s >= sqrt(m)` and `m > (n + 1) * log2(q)`, with the value `log_q` of the
    /// logarithm of `q` to the base two where the logarithm rounded up and the
    /// logarithm rounded down do not decide.
    ///
    /// The error names the first of the three that does not hold.
    pub fn check_security_from(&self, log_q: &Rational) -> (out: Result<(), ParameterError>)
        ensures
            out matches Err(e) ==> security_error(self.dual_regev@, self.psf.s@, log_q@) == Some(
                e,
            ),
            out is Ok ==> security_error(self.dual_regev@, self.psf.s@, log_q@) is None,
    {
        let q: u128 = self.dual_regev.q() as u128;
        let m: u128 = self.dual_regev.m() as u128;
        let n: u128 = self.dual_regev.n() as u128;
        let sn: u128 = self.psf.s.num() as u128;
        let sd: u128 = self.psf.s.den() as u128;
        assert(q * sd <= 0x7fff_ffff_ffff_ffff * 0xffff_ffff) by (nonlinear_arith)
            requires
                0 <= q <= 0x7fff_ffff_ffff_ffff,
                0 <= sd <= 0xffff_ffff,
        ;
        assert(5 * sn * (m + 1) <= 5 * 0xffff_ffff * 0x1_0000_0000_0000_0000) by (nonlinear_arith)
            requires
                0 <= sn <= 0xffff_ffff,
                0 <= m + 1 <= 0x1_0000_0000_0000_0000,
        ;
        if q * sd < 5 * sn * (m + 1) {
            return Err(ParameterError::ModulusBelowNoiseBound);
        }
        if !reaches_root(&self.psf.s, self.dual_regev.m() as u64) {
            return Err(ParameterError::WidthBelowSqrtM);
        }
        let (below, above) = log_bounds(self.dual_regev.q());
        assert((n + 1) * above <= 0x1_0000_0000_0000_0000 * 64) by (nonlinear_arith)
            requires
                0 <= n + 1 <= 0x1_0000_0000_0000_0000,
                0 <= above <= 64,
        ;
        assert((n + 1) * below <= 0x1_0000_0000_0000_0000 * 64) by (nonlinear_arith)
            requires
                0 <= n + 1 <= 0x1_0000_0000_0000_0000,
                0 <= below <= 64,
        ;
        if m > (n + 1) * (above as u128) {
            return Ok(());
        }
        if m <= (n + 1) * (below as u128) {
            return Err(ParameterError::DimensionBelowLogBound);
        }
        let ln: u128 = log_q.num() as u128;
        let ld: u128 = log_q.den() as u128;
        assert(m * ld <= 0xffff_ffff_ffff_ffff * 0xffff_ffff) by (nonlinear_arith)
            requires
                0 <= m <= 0xffff_ffff_ffff_ffff,
                0 <= ld <= 0xffff_ffff,
        ;
        assert((n + 1) * ln <= 0x1_0000_0000_0000_0000 * 0xffff_ffff) by (nonlinear_arith)
            requires
                0 <= n + 1 <= 0x1_0000_0000_0000_0000,
                0 <= ln <= 0xffff_ffff,
        ;
        if m * ld <= (n + 1) * ln {
            return Err(ParameterError::DimensionBelowLogBound);
        }
        Ok(())
    }

    /// Checks the security of the parameters: `q >= 5 * s * (m + 1)`,
    /// `s >= sqrt(m)` and `m > (n + 1) * log2(q)`. The backend is asked for the
    /// logarithm; its answer decides only where the logarithm rounded up and the
    /// logarithm rounded down do not.
    ///
    /// The error names the first of the three that does not hold.
    pub fn check_security(&self) -> (out: Result<(), ParameterError>)
        ensures
            exists|log_q: Ratio|
                (match out {
                    Ok(_) => None::<ParameterError>,
                    Err(e) => Some(e),
                }) == #[trigger] security_error(self.dual_regev@, self.psf.s@, log_q),
    {
        let log_q: Rational = self.psf.backend.log2(self.dual_regev.q());
        let out = self.check_security_from(&log_q);
        assert((match out {
            Ok(_) => None::<ParameterError>,
            Err(e) => Some(e),
        }) == security_error(self.dual_regev@, self.psf.s@, log_q@));
        out
    }

    /// Checks that decryption is correct with overwhelming probability: `n` is at
    /// least two, and `alpha <= 1 / (2 * s * sqrt(m + 1) * log2(n))`, with the
    /// values `sqrt_m1` of the square root and `log_n` of the logarithm where the
    /// two rounded up and the two rounded down do not decide.
    pub fn check_correctness_from(&self, sqrt_m1: &Rational, log_n: &Rational) -> (out: Result<
        (),
        ParameterError,
    >)
        ensures
            out matches Err(e) ==> correctness_error(
                self.dual_regev@,
                self.psf.s@,
                sqrt_m1@,
                log_n@,
            ) == Some(e),
            out is Ok ==> correctness_error(self.dual_regev@, self.psf.s@, sqrt_m1@, log_n@)
                is None,
    {
        if self.dual_regev.n() <= 1 {
            return Err(ParameterError::SecurityParameterBelowTwo);
        }
        let alpha: Fraction = self.dual_regev.alpha();
        let an: u128 = alpha.num();
        let ad: u128 = alpha.den();
        let sn: u128 = self.psf.s.num() as u128;
        let sd: u128 = self.psf.s.den() as u128;
        let tn: u128 = sqrt_m1.num() as u128;
        let td: u128 = sqrt_m1.den() as u128;
        let ln: u128 = log_n.num() as u128;
        let ld: u128 = log_n.den() as u128;
        let m: usize = self.dual_regev.m();
        let root: u64 = sqrt_floor((m + 1) as u64);
        let root_above: u64 = if root * root == (m + 1) as u64 {
            root
        } else {
            root + 1
        };
        let (below, above) = log_bounds(self.dual_regev.n() as u64);
        assert(0 <= sn * root_above * above <= 0xffff_ffff * 0x1_0000_0000 * 64)
            by (nonlinear_arith)
            requires
                0 <= sn <= 0xffff_ffff,
                0 <= root_above <= 0x1_0000_0000,
                0 <= above <= 64,
        ;
        assert(0 <= sn * root_above <= 0xffff_ffff * 0x1_0000_0000) by (nonlinear_arith)
            requires
                0 <= sn <= 0xffff_ffff,
                0 <= root_above <= 0x1_0000_0000,
        ;
        assert(0 <= sn * root * below <= 0xffff_ffff * 0x1_0000_0000 * 64) by (nonlinear_arith)
            requires
                0 <= sn <= 0xffff_ffff,
                0 <= root <= 0x1_0000_0000,
                0 <= below <= 64,
        ;
        assert(0 <= sn * root <= 0xffff_ffff * 0x1_0000_0000) by (nonlinear_arith)
            requires
                0 <= sn <= 0xffff_ffff,
                0 <= root <= 0x1_0000_0000,
        ;
        if product_le(an, 2 * (sn * (root_above as u128) * (above as u128)), ad, sd) {
            return Ok(());
        }
        if !product_le(an, 2 * (sn * (root as u128) * (below as u128)), ad, sd) {
            return Err(ParameterError::NoiseAboveCorrectnessBound);
        }
        assert(0 <= sn * tn <= 0xffff_ffff * 0xffff_ffff) by (nonlinear_arith)
            requires
                0 <= sn <= 0xffff_ffff,
                0 <= tn <= 0xffff_ffff,
        ;
        assert(0 <= sn * tn * ln <= 0xffff_ffff * 0xffff_ffff * 0xffff_ffff) by (nonlinear_arith)
            requires
                0 <= sn * tn <= 0xffff_ffff * 0xffff_ffff,
                0 <= ln <= 0xffff_ffff,
        ;
        assert(0 <= sd * td <= 0xffff_ffff * 0xffff_ffff) by (nonlinear_arith)
            requires
                0 <= sd <= 0xffff_ffff,
                0 <= td <= 0xffff_ffff,
        ;
        assert(0 <= sd * td * ld <= 0xffff_ffff * 0xffff_ffff * 0xffff_ffff) by (nonlinear_arith)
            requires
                0 <= sd * td <= 0xffff_ffff * 0xffff_ffff,
                0 <= ld <= 0xffff_ffff,
        ;
        if !product_le(an, 2 * (sn * tn * ln), ad, sd * td * ld) {
            return Err(ParameterError::NoiseAboveCorrectnessBound);
        }
        Ok(())
    }

    /// Checks that decryption is correct with overwhelming probability: `n` is at
    /// least two, and `alpha <= 1 / (2 * s * sqrt(m + 1) * log2(n))`. The backend
    /// is asked for the square root and the logarithm; its answers decide only
    /// where the two rounded up and the two rounded down do not.
    pub fn check_correctness(&self) -> (out: Result<(), ParameterError>)
        ensures
            exists|sqrt_m1: Ratio, log_n: Ratio|
                (match out {
                    Ok(_) => None::<ParameterError>,
                    Err(e) => Some(e),
                }) == #[trigger] correctness_error(
                    self.dual_regev@,
                    self.psf.s@,
                    sqrt_m1,
                    log_n,
                ),
    {
        let m: usize = self.dual_regev.m();
        let sqrt_m1: Rational = self.psf.backend.sqrt((m + 1) as u64);
        let log_n: Rational = self.psf.backend.log2(self.dual_regev.n() as u64);
        let out = self.check_correctness_from(&sqrt_m1, &log_n);
        out
    }
}

impl<B: Backend> IBEScheme for DualRegevIBE<B> {
    type Cipher = MatZq;

    type MasterPublicKey = MatZq;

    type MasterSecretKey = (MatZ, MatZ);

    type SecretKey = MatZ;

    type Identity = String;

    /// The scheme keeps its parameters. A request that has an answer gets it, and
    /// the storage stays as it was. Else the answer is a key of `identity` under
    /// the master public key, which the storage holds afterwards; or the
    /// extraction fails, and the storage stays as it was.
    open spec fn extracts(
        &self,
        after: &Self,
        master_pk: &MatZq,
        master_sk: &(MatZ, MatZ),
        identity: Seq<char>,
        out: Result<MatZ, MathError>,
    ) -> bool {
        let request = request_of(master_pk.model(), master_sk.model(), identity);
        &&& after.psf == self.psf
        &&& after.dual_regev == self.dual_regev
        &&& match out {
            Ok(sk) => {
                &&& (after.storage@, sk@) == recall(self.storage@, request, sk@)
                &&& !self.storage@.dom().contains(request) ==> self.is_key_of(
                    master_pk.model(),
                    identity,
                    sk@,
                )
            },
            Err(_) => after.storage@ == self.storage@ && !self.storage@.dom().contains(request),
        }
    }

    /// What the dual Regev decryption of `cipher` with `sk_id` comes to.
    open spec fn decrypts(&self, sk_id: Seq<Seq<int>>, cipher: &MatZq) -> Result<i64, MathError> {
        self.dual_regev.dec_spec(sk_id, cipher.model())
    }

    /// `cipher` is a dual Regev ciphertext of the bit of `message` under the
    /// master public key with the hash of `identity` as one more column, for a
    /// noise with entries within the bound of the noise.
    open spec fn encrypts(
        &self,
        master_pk: &MatZq,
        identity: Seq<char>,
        message: int,
        cipher: &MatZq,
    ) -> bool {
        is_ciphertext(
            self.dual_regev@,
            identity_key(self.dual_regev@, master_pk@, identity),
            message,
            cipher.model(),
        )
    }

    /// The public matrix of a fresh trapdoor as the master public key, and the
    /// trapdoor with its short basis as the master secret key.
    fn setup(&self) -> (out: (MatZq, (MatZ, MatZ)))
        ensures
            gpv_key_pair(self.psf.gp@, out.0.model(), out.1.0@, out.1.1@),
            is_matrix(out.0@, self.psf.gp@.n, self.psf.gp@.m()),
            entries_within(out.1.0@, -1, 1),
    {
        self.psf.trap_gen()
    }

    /// The secret key kept for the request, if it was made before. Else a short
    /// preimage of the hash of `identity` under the master public key, which is
    /// kept for the next time.
    fn extract(&mut self, master_pk: &MatZq, master_sk: &(MatZ, MatZ), identity: &String) -> (out:
        Result<MatZ, MathError>)
        ensures
            old(self).well_kept() ==> final(self).well_kept() && (out matches Ok(sk) ==> old(
                self,
            ).is_key_of(master_pk.model(), identity@, sk@)),
    {
        let request: ExtractRequest = (master_pk.copy(), (master_sk.copy(), identity.copy()));
        match self.storage.get(&request) {
            Some(sk) => {
                return Ok(sk.copy());
            },
            None => {},
        }
        let u: MatZq = hash_to_mat_zq_sha256(
            identity.as_str(),
            self.dual_regev.n(),
            1,
            self.dual_regev.q(),
        );
        match self.psf.samp_p(master_pk, master_sk, &u) {
            Ok(secret_key) => {
                let kept: MatZ = secret_key.copy();
                let _ = self.storage.insert(request, kept);
                Ok(secret_key)
            },
            Err(e) => Err(e),
        }
    }

    /// A dual Regev ciphertext of the bit of `message` under the master public
    /// key with the hash of `identity` as one more column, with noise of which
    /// every entry is at most six widths away from zero.
    ///
    /// Fails before anything is drawn when the modulus of the master public key
    /// is not `q`, and when it has not `n` rows and `m` columns. Fails with
    /// `RejectedSample` where the backend returns noise that is further away
    /// from zero.
    fn enc(&self, master_pk: &MatZq, identity: &String, message: i64) -> (out: Result<
        MatZq,
        MathError,
    >)
        ensures
            out is Ok ==> master_pk.q() == self.dual_regev@.q && is_matrix(
                master_pk@,
                self.dual_regev@.n,
                self.dual_regev@.m,
            ),
            out matches Err(e) ==> e == (if master_pk.q() != self.dual_regev@.q {
                MathError::MismatchingModulus
            } else if !is_matrix(master_pk@, self.dual_regev@.n, self.dual_regev@.m) {
                MathError::MismatchingMatrixDimension
            } else {
                MathError::RejectedSample
            }),
    {
        let rows: usize = master_pk.num_rows();
        let q: u64 = master_pk.modulus();
        let identity_based_pk: MatZq = hash_to_mat_zq_sha256(identity.as_str(), rows, 1, q);
        let pk: MatZq = match master_pk.concat_horizontal(&identity_based_pk) {
            Ok(pk) => pk,
            Err(_) => unreached(),
        };
        proof {
            assert(width(pk@) == width(master_pk@) + 1);
        }
        let out = self.dual_regev.enc(&pk, message, &self.psf.backend);
        proof {
            if out is Ok {
                assert(pk@ == identity_key(self.dual_regev@, master_pk@, identity@));
            }
        }
        out
    }

    /// The bit that `cipher` decodes to under the secret key `sk_id`.
    fn dec(&self, sk_id: &MatZ, cipher: &MatZq) -> (out: Result<i64, MathError>) {
        self.dual_regev.dec(sk_id, cipher)
    }
}

} // verus!
