//! The dual of Regev's encryption of single bits.

use crate::backend::Backend;
use crate::error::{MathError, ParameterError};
use crate::math::arith::{check_modulus, is_modulus, reduce};
use crate::math::laws::{
    lemma_dot_beside_stacked, lemma_dot_bound, lemma_dot_multiples_right, lemma_dot_negation_right,
    lemma_dot_residues_left, lemma_dot_sum_left, lemma_dot_unit, lemma_product_associative,
    lemma_residues_of_sum,
};
use crate::math::mat_z::{all_fit, lift, MatZ};
use crate::math::mat_zq::MatZq;
use crate::math::model::{
    beside, dot, entries_within, is_matrix, negation, product, residues, stacked, sum, unit, width,
};
use crate::math::rational::{Fraction, Ratio};
use crate::sample::g_trapdoor::trapdoor_distribution::{
    sample_gaussian_rows, sample_uniform_zq, tail_bound,
};
use vstd::arithmetic::div_mod::{
    lemma_add_mod_noop, lemma_add_mod_noop_right, lemma_fundamental_div_mod_converse,
    lemma_mod_twice, lemma_small_mod,
};
use vstd::pervasive::unreached;
use vstd::prelude::*;

verus! {

/// The numbers that a [`DualRegev`] holds.
pub struct DualRegevModel {
    /// The security parameter: the length of the secret of an encryption.
    pub n: int,
    /// The length of a secret key.
    pub m: int,
    /// The modulus.
    pub q: int,
    /// The width of the noise, as a fraction of the modulus.
    pub alpha: Ratio,
}

/// The parameters of the dual Regev encryption: public keys have `n` rows and
/// `m + 1` columns modulo `q`, and the noise has the width `alpha * q`.
#[derive(Clone, Copy, Debug)]
pub struct DualRegev {
    n: usize,
    m: usize,
    q: u64,
    alpha: Fraction,
}

impl View for DualRegev {
    type V = DualRegevModel;

    closed spec fn view(&self) -> DualRegevModel {
        DualRegevModel { n: self.n as int, m: self.m as int, q: self.q as int, alpha: self.alpha@ }
    }
}

/// The row with `len - 1` zeros and then `last`.
pub open spec fn last_only(len: int, last: int) -> Seq<Seq<int>> {
    seq![Seq::new(len as nat, |j: int| if j == len - 1 { last } else { 0int })]
}

/// The bit that `message` stands for: zero where it is even, one where it is odd.
pub open spec fn bit_of(message: int) -> int {
    message % 2
}

/// The ciphertext of the bit of `message` under `pk`, for the secret `s` and the
/// noise `e` of the encryption: `s * pk + e + (0, ..., 0, bit * floor(q / 2))`.
pub open spec fn cipher_of(
    q: int,
    pk: Seq<Seq<int>>,
    message: int,
    s: Seq<Seq<int>>,
    e: Seq<Seq<int>>,
) -> Seq<Seq<int>> {
    residues(sum(sum(product(s, pk), e), last_only(width(pk), bit_of(message) * (q / 2))), q)
}

/// The distance of the residue `x` from zero, around the circle of the residues
/// modulo `q`.
pub open spec fn distance_to_zero(q: int, x: int) -> int {
    if x <= q - x {
        x
    } else {
        q - x
    }
}

/// The distance of the residue `x` from `floor(q / 2)`.
pub open spec fn distance_to_half(q: int, x: int) -> int {
    if x >= q / 2 {
        x - q / 2
    } else {
        q / 2 - x
    }
}

/// The bit that the residue `x` decodes to: one where `x` is nearer to
/// `floor(q / 2)` than to zero.
pub open spec fn decode(q: int, x: int) -> int {
    if distance_to_zero(q, x) > distance_to_half(q, x) {
        1
    } else {
        0
    }
}

/// What remains of `cipher` once the secret key `sk` is applied: the last entry
/// minus the inner product of the others with `sk`, modulo `q`.
pub open spec fn opened(q: int, sk: Seq<Seq<int>>, cipher: Seq<Seq<int>>) -> int {
    residues(product(cipher, stacked(negation(sk), unit(1))), q)[0][0]
}

/// The greatest distance from zero of an entry of the noise of an encryption:
/// six times the width `alpha * q`, rounded down.
pub open spec fn noise_bound(d: DualRegevModel) -> int {
    tail_bound(d.alpha, d.q)
}

/// `cipher` is a ciphertext of the bit of `message` under `pk`: a row of `m + 1`
/// residues modulo `q` that is `s * pk + e + (0, ..., 0, bit * floor(q / 2))`
/// for a secret `s` and a noise `e` with entries within the bound of the noise.
pub open spec fn is_ciphertext(
    d: DualRegevModel,
    pk: Seq<Seq<int>>,
    message: int,
    cipher: (int, Seq<Seq<int>>),
) -> bool {
    &&& cipher.0 == d.q
    &&& is_matrix(cipher.1, 1, d.m + 1)
    &&& exists|s: Seq<Seq<int>>, e: Seq<Seq<int>>|
        is_matrix(s, 1, d.n) && is_matrix(e, 1, d.m + 1) && entries_within(
            e,
            -noise_bound(d),
            noise_bound(d),
        ) && cipher.1 == cipher_of(d.q, pk, message, s, e)
}

/// What `dec` returns for the parameters `d`, the secret key `sk` and the
/// ciphertext `cipher` with its modulus.
pub open spec fn dec_result(
    d: DualRegevModel,
    sk: Seq<Seq<int>>,
    cipher: (int, Seq<Seq<int>>),
) -> Result<i64, MathError> {
    if cipher.0 != d.q {
        Err(MathError::MismatchingModulus)
    } else if !is_matrix(sk, d.m, 1) || !is_matrix(cipher.1, 1, d.m + 1) {
        Err(MathError::MismatchingMatrixDimension)
    } else if !all_fit(negation(sk)) {
        Err(MathError::Overflow)
    } else {
        Ok(decode(d.q, opened(d.q, sk, cipher.1)) as i64)
    }
}

impl DualRegev {
    /// What `dec` returns for the secret key `sk` and the ciphertext `cipher`.
    pub open spec fn dec_spec(&self, sk: Seq<Seq<int>>, cipher: (int, Seq<Seq<int>>)) -> Result<
        i64,
        MathError,
    > {
        dec_result(self@, sk, cipher)
    }

    #[verifier::type_invariant]
    spec fn inv(self) -> bool {
        &&& self.n >= 1
        &&& self.m >= 1
        &&& self.m < usize::MAX
        &&& is_modulus(self.q as int)
    }

    /// The parameters `n`, `m`, `q` and `alpha`.
    ///
    /// Fails with `SecurityParameterTooSmall` where `n` is zero, else with
    /// `InvalidModulus` where `q` is no modulus, else with `TooLarge` where `m`
    /// is zero or `m + 1` does not fit.
    pub fn new(n: usize, m: usize, q: u64, alpha: Fraction) -> (out: Result<
        DualRegev,
        ParameterError,
    >)
        ensures
            out matches Ok(d) ==> d@ == (DualRegevModel {
                n: n as int,
                m: m as int,
                q: q as int,
                alpha: alpha@,
            }),
            out is Ok <==> n >= 1 && is_modulus(q as int) && 1 <= m < usize::MAX,
            out matches Err(e) ==> e == (if n < 1 {
                ParameterError::SecurityParameterTooSmall
            } else if !is_modulus(q as int) {
                ParameterError::InvalidModulus
            } else {
                ParameterError::TooLarge
            }),
    {
        if n < 1 {
            return Err(ParameterError::SecurityParameterTooSmall);
        }
        if !check_modulus(q) {
            return Err(ParameterError::InvalidModulus);
        }
        if m < 1 || m == usize::MAX {
            return Err(ParameterError::TooLarge);
        }
        Ok(DualRegev { n, m, q, alpha })
    }

    /// The security parameter `n`.
    pub fn n(&self) -> (n: usize)
        ensures
            n == self@.n,
            n >= 1,
    {
        proof {
            use_type_invariant(self);
        }
        self.n
    }

    /// The length `m` of a secret key.
    pub fn m(&self) -> (m: usize)
        ensures
            m == self@.m,
            1 <= m < usize::MAX,
    {
        proof {
            use_type_invariant(self);
        }
        self.m
    }

    /// The modulus `q`.
    pub fn q(&self) -> (q: u64)
        ensures
            q == self@.q,
            is_modulus(q as int),
    {
        proof {
            use_type_invariant(self);
        }
        self.q
    }

    /// The width `alpha` of the noise, as a fraction of the modulus.
    pub fn alpha(&self) -> (alpha: Fraction)
        ensures
            alpha@ == self@.alpha,
    {
        self.alpha
    }

    /// The ciphertext of the bit of `message` under `pk`, for the secret `s` and
    /// the noise `e`: the row `s * pk + e`, with `floor(q / 2)` added to its last
    /// entry where the bit is one.
    ///
    /// Fails when the modulus of `pk` or `s` is not `q`, and when `pk` has not
    /// `n` rows and `m + 1` columns, `s` is not a row of `n` entries or `e` is not
    /// a row of `m + 1` entries.
    pub fn enc_from(&self, pk: &MatZq, message: i64, s: &MatZq, e: &MatZ) -> (out: Result<
        MatZq,
        MathError,
    >)
        ensures
            out is Ok <==> pk.q() == self@.q && s.q() == self@.q && is_matrix(
                pk@,
                self@.n,
                self@.m + 1,
            ) && is_matrix(s@, 1, self@.n) && is_matrix(e@, 1, self@.m + 1),
            out matches Ok(c) ==> c@ == cipher_of(self@.q, pk@, message as int, s@, e@) && c.q()
                == self@.q && is_matrix(c@, 1, self@.m + 1),
            out matches Err(err) ==> err == (if pk.q() != self@.q || s.q() != self@.q {
                MathError::MismatchingModulus
            } else {
                MathError::MismatchingMatrixDimension
            }),
    {
        let n: usize = self.n();
        let m: usize = self.m();
        let q: u64 = self.q();
        if pk.modulus() != q || s.modulus() != q {
            return Err(MathError::MismatchingModulus);
        }
        if pk.num_rows() != n || pk.num_cols() != m + 1 || s.num_rows() != 1 || s.num_cols() != n
            || e.num_rows() != 1 || e.num_cols() != m + 1 {
            return Err(MathError::MismatchingMatrixDimension);
        }
        let s_pk: MatZq = match s.mul(pk) {
            Ok(x) => x,
            Err(_) => unreached(),
        };
        let noise: MatZq = match MatZq::from_mat_z(e, q) {
            Ok(x) => x,
            Err(_) => unreached(),
        };
        let noisy: MatZq = match s_pk.add(&noise) {
            Ok(x) => x,
            Err(_) => unreached(),
        };
        let bit: u64 = reduce(message, 2);
        let half: u64 = q / 2;
        let mut row: Vec<i64> = Vec::new();
        let mut j: usize = 0;
        while j < m + 1
            invariant
                j <= m + 1,
                m < usize::MAX,
                bit <= 1,
                half == q / 2,
                is_modulus(q as int),
                row.len() == j,
                forall|c: int|
                    0 <= c < j ==> (#[trigger] row[c]) == (if c == m {
                        bit * half
                    } else {
                        0int
                    }),
            decreases m + 1 - j,
        {
            assert(bit * half <= half) by (nonlinear_arith)
                requires
                    0 <= bit <= 1,
                    half >= 0,
            ;
            row.push(if j == m {
                (bit * half) as i64
            } else {
                0
            });
            j += 1;
        }
        let mut data: Vec<Vec<i64>> = Vec::new();
        data.push(row);
        assert(lift(data@) =~~= last_only(m + 1, bit_of(message as int) * (q as int / 2)));
        let shift: MatZq = match MatZq::from_mat_z(&MatZ::from_rectangular(data), q) {
            Ok(x) => x,
            Err(_) => unreached(),
        };
        proof {
            let a = product(s@, pk@);
            let l = last_only(m + 1, bit_of(message as int) * (q as int / 2));
            lemma_residues_of_sum(a, e@, q as int);
            lemma_residues_of_sum(sum(a, e@), l, q as int);
        }
        match noisy.add(&shift) {
            Ok(c) => Ok(c),
            Err(_) => unreached(),
        }
    }

    /// The ciphertext of the bit of `message` under `pk`, with a uniform secret
    /// and noise of the width `alpha * q`, every entry of which is at most six
    /// widths away from zero.
    ///
    /// Fails before anything is drawn when the modulus of `pk` is not `q`, and
    /// when `pk` has not `n` rows and `m + 1` columns. Fails with
    /// `RejectedSample` where the backend returns noise that is further away
    /// from zero.
    pub fn enc<B: Backend>(&self, pk: &MatZq, message: i64, backend: &B) -> (out: Result<
        MatZq,
        MathError,
    >)
        ensures
            out matches Ok(c) ==> is_ciphertext(self@, pk@, message as int, (c.q(), c@)),
            out is Ok ==> pk.q() == self@.q && is_matrix(pk@, self@.n, self@.m + 1),
            out matches Err(err) ==> err == (if pk.q() != self@.q {
                MathError::MismatchingModulus
            } else if !is_matrix(pk@, self@.n, self@.m + 1) {
                MathError::MismatchingMatrixDimension
            } else {
                MathError::RejectedSample
            }),
    {
        let n: usize = self.n();
        let m: usize = self.m();
        let q: u64 = self.q();
        if pk.modulus() != q {
            return Err(MathError::MismatchingModulus);
        }
        if pk.num_rows() != n || pk.num_cols() != m + 1 {
            return Err(MathError::MismatchingMatrixDimension);
        }
        let s: MatZq = sample_uniform_zq(backend, 1, n, q);
        let e: MatZ = match sample_gaussian_rows(backend, 1, m + 1, n, &self.alpha, q) {
            Ok(e) => e,
            Err(e) => {
                return Err(e);
            },
        };
        match self.enc_from(pk, message, &s, &e) {
            Ok(c) => {
                assert(is_matrix(s@, 1, self@.n) && is_matrix(e@, 1, self@.m + 1)
                    && entries_within(e@, -noise_bound(self@), noise_bound(self@)) && c@
                    == cipher_of(self@.q, pk@, message as int, s@, e@));
                Ok(c)
            },
            Err(_) => unreached(),
        }
    }

    /// The bit that `cipher` decodes to under the secret key `sk`: one where the
    /// last entry of `cipher` minus the inner product of the others with `sk` is
    /// nearer to `floor(q / 2)` than to zero.
    ///
    /// Fails when the modulus of `cipher` is not `q`, when `sk` is not a column
    /// of `m` entries or `cipher` is not a row of `m + 1` entries, and when an
    /// entry of `sk` has no negative.
    pub fn dec(&self, sk: &MatZ, cipher: &MatZq) -> (out: Result<i64, MathError>)
        ensures
            out == dec_result(self@, sk@, (cipher.q(), cipher@)),
    {
        let m: usize = self.m();
        let q: u64 = self.q();
        if cipher.modulus() != q {
            return Err(MathError::MismatchingModulus);
        }
        if sk.num_rows() != m || sk.num_cols() != 1 || cipher.num_rows() != 1 || cipher.num_cols()
            != m + 1 {
            return Err(MathError::MismatchingMatrixDimension);
        }
        let minus: MatZ = match sk.neg() {
            Ok(x) => x,
            Err(_) => {
                return Err(MathError::Overflow);
            },
        };
        let key: MatZ = match minus.concat_vertical(&MatZ::identity(1)) {
            Ok(x) => x,
            Err(_) => unreached(),
        };
        let result: MatZq = match cipher.mul_mat_z(&key) {
            Ok(x) => x,
            Err(_) => unreached(),
        };
        let x: u64 = result.get(0, 0);
        let half: u64 = q / 2;
        let to_zero: u64 = if x <= q - x {
            x
        } else {
            q - x
        };
        let to_half: u64 = if x >= half {
            x - half
        } else {
            half - x
        };
        if to_zero > to_half {
            Ok(1)
        } else {
            Ok(0)
        }
    }
}

/// The noise that decryption with the secret key `x` meets in a ciphertext with
/// the noise `e`: the last entry of `e` minus the inner product of the others
/// with `x`.
pub open spec fn noise_met(e: Seq<Seq<int>>, x: Seq<Seq<int>>) -> int {
    dot(e, stacked(negation(x), unit(1)), 0, 0, e[0].len() as int)
}

/// The inner product of the row that holds `last` after `len - 1` zeros with a
/// column, over the first `t` terms.
proof fn lemma_dot_last_only(len: int, last: int, key: Seq<Seq<int>>, t: int)
    requires
        len >= 1,
        0 <= t <= len,
    ensures
        dot(last_only(len, last), key, 0, 0, t) == (if t == len {
            last * key[len - 1][0]
        } else {
            0
        }),
    decreases t,
{
    if t > 0 {
        lemma_dot_last_only(len, last, key, t - 1);
    }
}

/// A residue that is a small noise away from zero decodes to zero, and one that
/// is a small noise away from `floor(q / 2)` decodes to one: `decode` undoes the
/// encoding of a bit wherever twice the noise stays below `floor(q / 2)`.
pub proof fn lemma_decode_removes_noise(q: int, bit: int, noise: int)
    requires
        is_modulus(q),
        bit == 0 || bit == 1,
        -(q / 2) < 2 * noise < q / 2,
    ensures
        decode(q, (noise + bit * (q / 2)) % q) == bit,
{
    let h = q / 2;
    if bit == 0 {
        if noise >= 0 {
            lemma_small_mod(noise as nat, q as nat);
        } else {
            lemma_fundamental_div_mod_converse(noise, q, -1, q + noise);
        }
    } else {
        lemma_small_mod((noise + h) as nat, q as nat);
    }
}

/// Decryption undoes encryption: for every public key `[a | a * x]` with the
/// secret key `x`, every secret `s` and every noise `e` of an encryption of
/// which `x` meets less than a quarter of the modulus, the ciphertext of a
/// message decodes to the bit of the message.
pub proof fn lemma_dual_regev_decrypts(
    d: DualRegevModel,
    a: Seq<Seq<int>>,
    x: Seq<Seq<int>>,
    s: Seq<Seq<int>>,
    e: Seq<Seq<int>>,
    message: int,
)
    requires
        is_modulus(d.q),
        d.n >= 1,
        d.m >= 1,
        is_matrix(a, d.n, d.m),
        is_matrix(x, d.m, 1),
        is_matrix(s, 1, d.n),
        is_matrix(e, 1, d.m + 1),
        -(d.q / 2) < 2 * noise_met(e, x) < d.q / 2,
    ensures
        decode(
            d.q,
            opened(
                d.q,
                x,
                cipher_of(d.q, beside(a, residues(product(a, x), d.q)), message, s, e),
            ),
        ) == bit_of(message),
{
    let q = d.q;
    let h = q / 2;
    let u = residues(product(a, x), q);
    let pk = beside(a, u);
    let key = stacked(negation(x), unit(1));
    let bit = bit_of(message);
    let shift = last_only(d.m + 1, bit * h);
    let s_pk = product(s, pk);
    let raw = sum(sum(s_pk, e), shift);
    // the public key sends the key of the decryption to multiples of q
    let pk_key = product(pk, key);
    assert forall|t: int| 0 <= t < d.n implies (#[trigger] pk_key[t])[0] % q == 0 by {
        lemma_dot_beside_stacked(a, u, negation(x), unit(1), t, 0, 1);
        lemma_dot_negation_right(a, x, t, 0, d.m);
        lemma_dot_unit(u, 1, t, 0, 1);
        let v = dot(a, x, t, 0, d.m);
        lemma_add_mod_noop_right(-v, v, q);
        lemma_small_mod(0, q as nat);
    }
    lemma_product_associative(s, pk, key);
    assert(dot(s_pk, key, 0, 0, d.m + 1) == product(s_pk, key)[0][0]);
    lemma_dot_multiples_right(s, pk_key, 0, 0, d.n, q);
    // the rest is the noise and the encoded bit
    lemma_dot_residues_left(raw, key, 0, 0, d.m + 1, q);
    lemma_dot_sum_left(sum(s_pk, e), shift, key, 0, 0, d.m + 1);
    lemma_dot_sum_left(s_pk, e, key, 0, 0, d.m + 1);
    lemma_dot_last_only(d.m + 1, bit * h, key, d.m + 1);
    let first = dot(s_pk, key, 0, 0, d.m + 1);
    let noise = noise_met(e, x);
    lemma_add_mod_noop(first, noise + bit * h, q);
    lemma_mod_twice(noise + bit * h, q);
    lemma_decode_removes_noise(q, bit, noise);
}

/// Ciphertexts decrypt: for every public key `[a | a * x]` with a secret key `x`
/// of entries up to `size`, every ciphertext of a message under it decrypts to
/// the bit of the message, where `m + 1` times the bound of the noise times
/// `size` is less than a quarter of the modulus.
pub proof fn lemma_ciphertexts_decrypt(
    d: DualRegevModel,
    a: Seq<Seq<int>>,
    x: Seq<Seq<int>>,
    message: int,
    cipher: Seq<Seq<int>>,
    size: int,
)
    requires
        is_modulus(d.q),
        d.n >= 1,
        d.m >= 1,
        is_matrix(a, d.n, d.m),
        is_matrix(x, d.m, 1),
        1 <= size <= i64::MAX,
        entries_within(x, -size, size),
        noise_bound(d) >= 0,
        2 * ((d.m + 1) * (noise_bound(d) * size)) < d.q / 2,
        is_ciphertext(d, beside(a, residues(product(a, x), d.q)), message, (d.q, cipher)),
    ensures
        dec_result(d, x, (d.q, cipher)) == Ok::<i64, MathError>(bit_of(message) as i64),
{
    let pk = beside(a, residues(product(a, x), d.q));
    let (s, e) = choose|s: Seq<Seq<int>>, e: Seq<Seq<int>>|
        is_matrix(s, 1, d.n) && is_matrix(e, 1, d.m + 1) && entries_within(
            e,
            -noise_bound(d),
            noise_bound(d),
        ) && cipher == cipher_of(d.q, pk, message, s, e);
    let key = stacked(negation(x), unit(1));
    assert forall|u: int| 0 <= u < d.m + 1 implies -size <= (#[trigger] key[u])[0] <= size by {
        if u < d.m {
            assert(key[u] == negation(x)[u]);
            assert(-size <= x[u][0] <= size);
        } else {
            assert(key[u] == unit(1)[u - d.m]);
        }
    }
    assert forall|u: int| 0 <= u < d.m + 1 implies -noise_bound(d) <= #[trigger] e[0][u]
        <= noise_bound(d) by {}
    lemma_dot_bound(e, key, 0, 0, d.m + 1, noise_bound(d), size);
    lemma_dual_regev_decrypts(d, a, x, s, e, message);
    assert(all_fit(negation(x))) by {
        assert forall|i: int, j: int|
            0 <= i < negation(x).len() && 0 <= j < negation(x)[i].len() implies i64::MIN
            <= #[trigger] negation(x)[i][j] <= i64::MAX by {
            assert(-size <= x[i][j] <= size);
        }
    }
    vstd::arithmetic::div_mod::lemma_mod_bound(message, 2);
}

} // verus!
