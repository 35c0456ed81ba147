//! Gadget matrices, their digits, and trapdoors for the default parameters.

use qfall_crypto::backend::Backend;
use qfall_crypto::error::{MathError, ParameterError};
use qfall_crypto::math::mat_z::MatZ;
use qfall_crypto::math::mat_zq::MatZq;
use qfall_crypto::math::rational::{Fraction, Rational};
use qfall_crypto::sample::g_trapdoor::gadget_classical::{
    find_solution_gadget_mat, find_solution_gadget_vec, gen_gadget_mat, gen_gadget_vec,
    gen_trapdoor, gen_trapdoor_from,
};
use qfall_crypto::sample::g_trapdoor::gadget_default::{
    gen_trapdoor_default, gen_trapdoor_ring_default,
};
use qfall_crypto::sample::g_trapdoor::gadget_parameters::{GadgetParameters, GadgetParametersRing};
use qfall_crypto::sample::g_trapdoor::gadget_ring::{
    gen_trapdoor_ring_lwe, gen_trapdoor_ring_lwe_from,
};
use qfall_crypto::sample::g_trapdoor::short_basis_classical::gen_short_basis_for_trapdoor;
use qfall_crypto::sample::g_trapdoor::trapdoor_distribution::{
    check_tail, sample_gaussian_rows, sample_plus_minus_one_zero, sample_uniform_zq,
};
use std::cell::Cell;

/// A backend that only makes uniform choices.
struct Uniform {
    state: Cell<u64>,
}

impl Uniform {
    fn new(seed: u64) -> Self {
        Uniform { state: Cell::new(seed | 1) }
    }
}

impl Backend for Uniform {
    fn uniform(&self, bound: u64) -> u64 {
        let mut x = self.state.get();
        x ^= x << 13;
        x ^= x >> 7;
        x ^= x << 17;
        self.state.set(x);
        x % bound
    }

    fn prime(&self, _lower: u64, _upper: u64) -> u64 {
        unreachable!()
    }

    fn lattice_point(&self, _basis: &MatZ, _n: usize, _center: &MatZ, _s: &Rational) -> MatZ {
        unreachable!()
    }

    fn gaussian(&self, _n: usize, _width: &Fraction, _scale: u64) -> i64 {
        (self.uniform(5) as i64) - 2
    }

    fn sqrt(&self, _x: u64) -> Rational {
        unreachable!()
    }

    fn log2(&self, _x: u64) -> Rational {
        unreachable!()
    }
}

/// A backend that ignores the bound it is given.
struct Unfaithful;

impl Backend for Unfaithful {
    fn uniform(&self, _bound: u64) -> u64 {
        u64::MAX
    }

    fn prime(&self, _lower: u64, _upper: u64) -> u64 {
        unreachable!()
    }

    fn lattice_point(&self, _basis: &MatZ, _n: usize, _center: &MatZ, _s: &Rational) -> MatZ {
        unreachable!()
    }

    fn gaussian(&self, _n: usize, _width: &Fraction, _scale: u64) -> i64 {
        unreachable!()
    }

    fn sqrt(&self, _x: u64) -> Rational {
        unreachable!()
    }

    fn log2(&self, _x: u64) -> Rational {
        unreachable!()
    }
}

fn log_ceil_2(x: usize) -> usize {
    let mut k = 0;
    while (1usize << k) < x {
        k += 1;
    }
    k
}

fn mat_z(rows: Vec<Vec<i64>>) -> MatZ {
    MatZ::from_rows(rows).unwrap()
}

/// Ensures that the default parameters are used correctly and the expected
/// dimensions are returned.
#[test]
fn correct_default_dimensions() {
    for n in [5, 10, 50] {
        for k in [5, 10] {
            let q = 2_u64.pow(k);
            let k = k as usize;

            let n_log_2_pow_2 = log_ceil_2(n).pow(2);
            let m_bar = n * k + n_log_2_pow_2;
            let m = m_bar + n * k;

            let (a, r) = gen_trapdoor_default(n, q, &Uniform::new(7)).unwrap();

            assert_eq!(n, a.num_rows());
            assert_eq!(m, a.num_cols());

            assert_eq!(m_bar, r.num_rows());
            assert_eq!(n * k, r.num_cols());
        }
    }
}

/// Ensures that for several parameter choices the generated G-Trapdoor is
/// actually a trapdoor.
#[test]
fn ensure_is_trapdoor() {
    for n in [5, 10, 25] {
        for k in [5, 10] {
            let q = 2_u64.pow(k);
            let k = k as usize;

            let (a, r) = gen_trapdoor_default(n, q, &Uniform::new(9)).unwrap();

            let trapdoor = r.concat_vertical(&MatZ::identity(n * k)).unwrap();

            assert!(gen_gadget_mat(n, k, 2)
                .unwrap()
                .equals(&a.mul_mat_z(&trapdoor).unwrap().representatives()))
        }
    }
}

/// The trapdoor also works for a modulus that is no power of the base, and for
/// a tag other than the identity.
#[test]
fn trapdoor_with_tag() {
    let params = GadgetParameters::init(2, 11, 12, None, 3).unwrap();
    assert_eq!(3, params.k());
    let backend = Uniform::new(3);
    let a_bar = sample_uniform_zq(&backend, 2, 12, 11);
    let tag = MatZq::from_mat_z(&mat_z(vec![vec![2, 1], vec![0, 5]]), 11).unwrap();
    let (a, r) = gen_trapdoor(&params, &a_bar, &tag, &backend).unwrap();
    let trapdoor = r.concat_vertical(&MatZ::identity(6)).unwrap();
    let g = gen_gadget_mat(2, 3, 3).unwrap();
    assert!(a.mul_mat_z(&trapdoor).unwrap().equals(&tag.mul_mat_z(&g).unwrap()));
    assert!(a.left_columns(12).equals(&a_bar));
}

/// The public matrix for a given trapdoor, entry by entry.
#[test]
fn public_matrix_by_hand() {
    // n = 1, q = 5, base = 2: k = 3, m_bar = 3
    let params = GadgetParameters::init(1, 5, 3, None, 2).unwrap();
    let a_bar = MatZq::from_mat_z(&mat_z(vec![vec![1, 2, 3]]), 5).unwrap();
    let tag = MatZq::identity(1, 5);
    let r = mat_z(vec![vec![1, 0, -1], vec![0, 1, 1], vec![-1, -1, 0]]);
    // a_bar * r = (1 - 3, 2 - 3, -1 + 2) = (-2, -1, 1); G = (1, 2, 4)
    // G - a_bar * r = (3, 3, 3)
    let (a, kept) = gen_trapdoor_from(&params, &a_bar, &tag, r.clone()).unwrap();
    assert!(kept.equals(&r));
    assert_eq!(vec![vec![1, 2, 3, 3, 3, 3]], a.representatives().to_rows());
    assert_eq!(5, a.modulus());
}

/// Shapes and moduli that do not fit the parameters are reported.
#[test]
fn trapdoor_rejects_misfits() {
    let params = GadgetParameters::init(1, 5, 3, None, 2).unwrap();
    let a_bar = MatZq::from_mat_z(&mat_z(vec![vec![1, 2, 3]]), 5).unwrap();
    let tag = MatZq::identity(1, 5);
    let r = mat_z(vec![vec![1, 0, -1], vec![0, 1, 1], vec![-1, -1, 0]]);

    let narrow = mat_z(vec![vec![1, 0], vec![0, 1], vec![-1, -1]]);
    assert!(matches!(
        gen_trapdoor_from(&params, &a_bar, &tag, narrow),
        Err(MathError::MismatchingMatrixDimension)
    ));
    let other = MatZq::identity(1, 7);
    assert!(matches!(
        gen_trapdoor_from(&params, &a_bar, &other, r.clone()),
        Err(MathError::MismatchingModulus)
    ));
    let wide = MatZq::from_mat_z(&mat_z(vec![vec![1, 2, 3, 4]]), 5).unwrap();
    assert!(matches!(
        gen_trapdoor_from(&params, &wide, &tag, r),
        Err(MathError::MismatchingMatrixDimension)
    ));
}

/// The gadget vector and the gadget matrix, entry by entry.
#[test]
fn gadget_by_hand() {
    assert_eq!(
        vec![vec![1], vec![3], vec![9], vec![27]],
        gen_gadget_vec(4, 3).unwrap().to_rows()
    );
    assert_eq!(
        vec![vec![1, 2, 4, 0, 0, 0], vec![0, 0, 0, 1, 2, 4]],
        gen_gadget_mat(2, 3, 2).unwrap().to_rows()
    );
    assert_eq!(vec![vec![1]], gen_gadget_vec(1, 10).unwrap().to_rows());
    // 2^62 fits, 2^63 does not
    assert!(gen_gadget_vec(63, 2).is_ok());
    assert!(matches!(gen_gadget_vec(64, 2), Err(MathError::Overflow)));
    assert!(matches!(gen_gadget_mat(2, 64, 2), Err(MathError::Overflow)));
}

/// The digits of a number, and the gadget vector times them.
#[test]
fn digits_by_hand() {
    assert_eq!(
        vec![vec![1], vec![0], vec![1], vec![1]],
        find_solution_gadget_vec(13, 4, 2).to_rows()
    );
    assert_eq!(vec![vec![2], vec![1], vec![1]], find_solution_gadget_vec(14, 3, 3).to_rows());
    // only the first k digits
    assert_eq!(vec![vec![1], vec![0]], find_solution_gadget_vec(13, 2, 2).to_rows());

    let value = MatZq::from_mat_z(&mat_z(vec![vec![5, 0], vec![6, 3]]), 7).unwrap();
    let digits = find_solution_gadget_mat(&value, 3, 2).unwrap();
    assert_eq!(
        vec![vec![1, 0], vec![0, 0], vec![1, 0], vec![0, 1], vec![1, 1], vec![1, 0]],
        digits.to_rows()
    );
    let g = gen_gadget_mat(2, 3, 2).unwrap();
    assert_eq!(vec![vec![5, 0], vec![6, 3]], g.mul(&digits).unwrap().to_rows());
}

/// The gadget matrix times the digits of a column is the column, for every
/// residue.
#[test]
fn gadget_inverts_every_residue() {
    for (q, k, base) in [(8u64, 3usize, 2u64), (11, 4, 2), (11, 3, 3), (100, 2, 10)] {
        let g = MatZq::from_mat_z(&gen_gadget_mat(2, k, base).unwrap(), q).unwrap();
        for x in 0..q {
            let u = MatZq::from_mat_z(&mat_z(vec![vec![x as i64], vec![(q - 1 - x) as i64]]), q)
                .unwrap();
            let digits = find_solution_gadget_mat(&u, k, base).unwrap();
            assert!(g.mul_mat_z(&digits).unwrap().equals(&u));
        }
    }
}

/// The short basis is sent to zero by the public matrix, also where the modulus
/// is no power of the base.
#[test]
fn short_basis_is_in_the_kernel() {
    for (n, q) in [(2usize, 8u64), (3, 11), (2, 1000), (4, 8191)] {
        let params = GadgetParameters::init_default(n, q).unwrap();
        let (a, r) = gen_trapdoor_default(n, q, &Uniform::new(q)).unwrap();
        let basis = gen_short_basis_for_trapdoor(&params, &a, &r).unwrap();
        assert_eq!(params.m(), basis.num_rows());
        assert_eq!(params.m(), basis.num_cols());
        let zero = MatZq::from_mat_z(&MatZ::zero(n, params.m()), q).unwrap();
        assert!(a.mul_mat_z(&basis).unwrap().equals(&zero));
    }
}

/// The short basis for a small trapdoor, entry by entry.
#[test]
fn short_basis_by_hand() {
    // n = 1, q = 5, base = 2: k = 3, m_bar = 3, and q is no power of two
    let params = GadgetParameters::init(1, 5, 3, None, 2).unwrap();
    let a = MatZq::from_mat_z(&mat_z(vec![vec![1, 2, 3, 3, 3, 3]]), 5).unwrap();
    let r = mat_z(vec![vec![1, 0, -1], vec![0, 1, 1], vec![-1, -1, 0]]);
    let basis = gen_short_basis_for_trapdoor(&params, &a, &r).unwrap();
    // -a_bar = (4, 3, 2) has the digits W = [[0, 1, 0], [0, 1, 1], [1, 0, 0]]
    // S = [[2, 0, 1], [-1, 2, 0], [0, -1, 1]] with the digits of 5 as last column
    // r * W = [[-1, 1, 0], [1, 1, 1], [0, -2, -1]]
    // r * S = [[2, 1, 0], [-1, 1, 1], [-1, -2, -1]]
    assert_eq!(
        vec![
            vec![0, 1, 0, 2, 1, 0],
            vec![1, 2, 1, -1, 1, 1],
            vec![0, -2, 0, -1, -2, -1],
            vec![0, 1, 0, 2, 0, 1],
            vec![0, 1, 1, -1, 2, 0],
            vec![1, 0, 0, 0, -1, 1],
        ],
        basis.to_rows()
    );
}

/// The parameters that `init_default` derives.
#[test]
fn default_parameters() {
    let params = GadgetParameters::init_default(4, 8209).unwrap();
    assert_eq!(4, params.n());
    assert_eq!(14, params.k());
    assert_eq!(2, params.base());
    assert_eq!(8209, params.q());
    assert_eq!(4 * 14 + 2 * 2, params.m_bar());
    assert_eq!(116, params.m());
    assert_eq!(56, params.w());

    // q a power of two: k is the exponent
    assert_eq!(10, GadgetParameters::init_default(5, 1024).unwrap().k());
    assert_eq!(11, GadgetParameters::init_default(5, 1025).unwrap().k());
    // n = 1: the logarithm of n is zero
    assert_eq!(3, GadgetParameters::init_default(1, 8).unwrap().m_bar());
}

/// Every error of `init`, in the order in which the requirements are checked.
#[test]
fn rejected_parameters() {
    assert!(matches!(
        GadgetParameters::init(0, 1, 0, None, 1),
        Err(ParameterError::SecurityParameterTooSmall)
    ));
    assert!(matches!(
        GadgetParameters::init(1, 1, 0, None, 1),
        Err(ParameterError::InvalidModulus)
    ));
    assert!(matches!(
        GadgetParameters::init(1, 1 << 63, 0, None, 1),
        Err(ParameterError::InvalidModulus)
    ));
    assert!(matches!(GadgetParameters::init(1, 8, 0, None, 1), Err(ParameterError::InvalidBase)));
    assert!(matches!(
        GadgetParameters::init(1, 8, 0, Some(2), 2),
        Err(ParameterError::TooFewDigits)
    ));
    assert!(matches!(
        GadgetParameters::init(1, 8, 0, Some(0), 2),
        Err(ParameterError::TooFewDigits)
    ));
    assert!(matches!(
        GadgetParameters::init(1, 8, 2, Some(3), 2),
        Err(ParameterError::MBarTooSmall)
    ));
    assert!(GadgetParameters::init(1, 8, 3, Some(3), 2).is_ok());
    assert!(GadgetParameters::init(1, 8, 3, Some(4), 2).is_ok());
    assert!(matches!(
        GadgetParameters::init(1, 8, 3, Some(70), 2),
        Err(ParameterError::TooLarge)
    ));
    assert!(matches!(
        GadgetParameters::init(1, 8, usize::MAX, None, 2),
        Err(ParameterError::TooLarge)
    ));
    assert!(matches!(
        GadgetParameters::init_default(0, 8),
        Err(ParameterError::SecurityParameterTooSmall)
    ));
    assert!(matches!(GadgetParameters::init_default(3, 0), Err(ParameterError::InvalidModulus)));
    assert!(matches!(
        gen_trapdoor_default(3, 1, &Uniform::new(1)),
        Err(ParameterError::InvalidModulus)
    ));
    assert!(matches!(
        gen_trapdoor_default(usize::MAX / 2, 8, &Uniform::new(1)),
        Err(ParameterError::TooLarge)
    ));
}

/// Whatever the backend returns, the trapdoor has entries -1, 0 and 1, and the
/// uniform part has residues as entries.
#[test]
fn samples_are_forced_into_range() {
    let r = sample_plus_minus_one_zero(&Unfaithful, 3, 4);
    assert_eq!(3, r.num_rows());
    assert_eq!(4, r.num_cols());
    for row in r.to_rows() {
        for x in row {
            assert!((-1..=1).contains(&x));
        }
    }
    let a = sample_uniform_zq(&Unfaithful, 2, 5, 7);
    assert_eq!(7, a.modulus());
    for row in a.representatives().to_rows() {
        for x in row {
            assert!((0..7).contains(&x));
        }
    }
    let mut seen = [false; 3];
    for row in sample_plus_minus_one_zero(&Uniform::new(1), 10, 10).to_rows() {
        for x in row {
            seen[(x + 1) as usize] = true;
        }
    }
    assert_eq!([true, true, true], seen);
}

/// The product of two polynomials modulo `X^n + 1`.
fn wrap(a: &[i64], b: &[i64]) -> Vec<i64> {
    let n = a.len();
    let mut out = vec![0; n];
    for i in 0..n {
        for j in 0..n {
            if i + j < n {
                out[i + j] += a[i] * b[j];
            } else {
                out[i + j - n] -= a[i] * b[j];
            }
        }
    }
    out
}

/// The public vector over the ring for a trapdoor given by hand.
#[test]
fn ring_trapdoor_by_hand() {
    // polynomials modulo X^2 + 1 with coefficients modulo 7: k = 3
    let params = GadgetParametersRing::init_default(2, 7).unwrap();
    assert_eq!(3, params.k());
    assert_eq!(2, params.base());
    let a_bar = MatZq::from_mat_z(&mat_z(vec![vec![3, 5]]), 7).unwrap();
    let r = mat_z(vec![vec![1, -1], vec![0, 0], vec![2, 1]]);
    let e = mat_z(vec![vec![0, 1], vec![0, 0], vec![-1, 0]]);
    // (3 + 5X)(1 - X) = 8 + 2X, plus X: 1 - (8 + 3X) = 4X modulo 7
    // (3 + 5X)(2 + X) = 1 + 13X, minus 1: 4 - 13X = 4 + X modulo 7
    let (a, kept_r, kept_e) = gen_trapdoor_ring_lwe_from(&params, &a_bar, r.clone(), e.clone())
        .unwrap();
    assert_eq!(
        vec![vec![1, 0], vec![3, 5], vec![0, 4], vec![2, 0], vec![4, 1]],
        a.representatives().to_rows()
    );
    assert!(kept_r.equals(&r) && kept_e.equals(&e));

    let wide = MatZq::from_mat_z(&mat_z(vec![vec![3, 5, 1]]), 7).unwrap();
    assert!(matches!(
        gen_trapdoor_ring_lwe_from(&params, &wide, r.clone(), e.clone()),
        Err(MathError::MismatchingMatrixDimension)
    ));
    let other = MatZq::from_mat_z(&mat_z(vec![vec![3, 5]]), 11).unwrap();
    assert!(matches!(
        gen_trapdoor_ring_lwe_from(&params, &other, r, e),
        Err(MathError::MismatchingModulus)
    ));
}

/// For the default ring parameters, `e + a_bar * r` plus the public vector is
/// the gadget vector.
#[test]
fn ring_trapdoor_factors() {
    let (n, q) = (8usize, 257u64);
    let s = Rational::from_integer(3);
    let (a, r, e) = gen_trapdoor_ring_default(n, q, &s, &Uniform::new(5)).unwrap();
    let k = 9;
    assert_eq!(k + 2, a.num_rows());
    assert_eq!(n, a.num_cols());
    assert_eq!(k, r.num_rows());
    assert_eq!(k, e.num_rows());
    let a = a.representatives().to_rows();
    let (r, e) = (r.to_rows(), e.to_rows());
    assert_eq!(vec![1, 0, 0, 0, 0, 0, 0, 0], a[0]);
    for j in 0..k {
        let product = wrap(&a[1], &r[j]);
        for i in 0..n {
            let gadget = if i == 0 { 1 << j } else { 0 };
            let sum = e[j][i] + product[i] + a[j + 2][i];
            assert_eq!(0, (sum - gadget).rem_euclid(q as i64));
        }
    }
    assert!(matches!(
        gen_trapdoor_ring_default(0, q, &s, &Uniform::new(5)),
        Err(ParameterError::SecurityParameterTooSmall)
    ));
    assert!(matches!(
        gen_trapdoor_ring_default(n, 1, &s, &Uniform::new(5)),
        Err(ParameterError::InvalidModulus)
    ));
}

/// A backend whose uniform choices are those of `Uniform` and whose integers
/// of the Gaussian distribution are all the same.
struct Steady {
    inner: Uniform,
    noise: i64,
}

impl Backend for Steady {
    fn uniform(&self, bound: u64) -> u64 {
        self.inner.uniform(bound)
    }

    fn prime(&self, _lower: u64, _upper: u64) -> u64 {
        unreachable!()
    }

    fn lattice_point(&self, _basis: &MatZ, _n: usize, _center: &MatZ, _s: &Rational) -> MatZ {
        unreachable!()
    }

    fn gaussian(&self, _n: usize, _width: &Fraction, _scale: u64) -> i64 {
        self.noise
    }

    fn sqrt(&self, _x: u64) -> Rational {
        unreachable!()
    }

    fn log2(&self, _x: u64) -> Rational {
        unreachable!()
    }
}

/// Six widths, rounded down, is the greatest distance from zero.
#[test]
fn tails_are_cut_at_six_widths() {
    // 6 * 101 / 100 = 6.06
    let width = Fraction::new(1, 100).unwrap();
    for x in -6..=6 {
        assert!(check_tail(x, &width, 101));
    }
    for x in [7, -7, 8, -8, 60, -606, i64::MAX, i64::MIN] {
        assert!(!check_tail(x, &width, 101));
    }
    // 6 * 5 / 2 = 15, exactly
    let width = Fraction::new(5, 2).unwrap();
    assert!(check_tail(15, &width, 1) && check_tail(-15, &width, 1));
    assert!(!check_tail(16, &width, 1) && !check_tail(-16, &width, 1));
    // 6 * 3 / 19 = 0.94...
    let width = Fraction::new(1, 19).unwrap();
    assert!(check_tail(0, &width, 3));
    assert!(!check_tail(1, &width, 3) && !check_tail(-1, &width, 3));
    assert!(check_tail(1, &width, 4) && !check_tail(2, &width, 4));
    // no width, or no scale
    let none = Fraction::new(0, 1).unwrap();
    assert!(check_tail(0, &none, 1000) && !check_tail(1, &none, 1000));
    assert!(check_tail(0, &width, 0) && !check_tail(-1, &width, 0));
    // as wide as can be
    let all = Fraction::new(u128::MAX, 1).unwrap();
    assert!(check_tail(i64::MIN, &all, u64::MAX) && check_tail(i64::MAX, &all, u64::MAX));
    let thin = Fraction::new(1, u128::MAX).unwrap();
    assert!(check_tail(0, &thin, u64::MAX) && !check_tail(1, &thin, u64::MAX));
}

/// Integers of the Gaussian distribution are kept up to six widths from zero.
#[test]
fn gaussian_rows_within_six_widths() {
    let width = Fraction::new(7, 2).unwrap();
    // 6 * 3.5 * 2 = 42
    for noise in [42, -42, 0, 17] {
        let backend = Steady { inner: Uniform::new(1), noise };
        let e = sample_gaussian_rows(&backend, 2, 3, 5, &width, 2).unwrap();
        assert_eq!(vec![vec![noise; 3]; 2], e.to_rows());
    }
    for noise in [43, -43, i64::MIN, i64::MAX] {
        let backend = Steady { inner: Uniform::new(1), noise };
        assert!(matches!(
            sample_gaussian_rows(&backend, 2, 3, 5, &width, 2),
            Err(MathError::RejectedSample)
        ));
    }
    let e = sample_gaussian_rows(&Uniform::new(3), 4, 6, 5, &width, 2).unwrap();
    assert_eq!((4, 6), (e.num_rows(), e.num_cols()));
    assert!(e.to_rows().iter().flatten().all(|x| -2 <= *x && *x <= 2));
}

/// The trapdoors of the ring variant are within six widths of zero, and
/// coefficients beyond are rejected after the parameters were looked at.
#[test]
fn ring_trapdoors_within_six_widths() {
    let (n, q) = (8usize, 257u64);
    let s = Rational::from_integer(3);
    let (_a, r, e) = gen_trapdoor_ring_default(n, q, &s, &Uniform::new(7)).unwrap();
    for row in r.to_rows().iter().chain(e.to_rows().iter()) {
        assert!(row.iter().all(|x| -18 <= *x && *x <= 18));
    }
    for noise in [18, -18] {
        let backend = Steady { inner: Uniform::new(7), noise };
        let (a, r, e) = gen_trapdoor_ring_default(n, q, &s, &backend).unwrap();
        assert_eq!(vec![vec![noise; n]; 9], r.to_rows());
        assert_eq!(vec![vec![noise; n]; 9], e.to_rows());
        assert_eq!(11, a.num_rows());
    }
    for noise in [19, -19] {
        let backend = Steady { inner: Uniform::new(7), noise };
        assert!(matches!(
            gen_trapdoor_ring_default(n, q, &s, &backend),
            Err(ParameterError::RejectedSample)
        ));
        assert!(matches!(
            gen_trapdoor_ring_default(0, q, &s, &backend),
            Err(ParameterError::SecurityParameterTooSmall)
        ));
        assert!(matches!(
            gen_trapdoor_ring_default(n, 1, &s, &backend),
            Err(ParameterError::InvalidModulus)
        ));

        let params = GadgetParametersRing::init_default(n, q).unwrap();
        let a_bar = sample_uniform_zq(&backend, 1, n, q);
        assert!(matches!(
            gen_trapdoor_ring_lwe(&params, &a_bar, &s, &backend),
            Err(MathError::RejectedSample)
        ));
        let other = sample_uniform_zq(&backend, 1, n, 263);
        assert!(matches!(
            gen_trapdoor_ring_lwe(&params, &other, &s, &backend),
            Err(MathError::MismatchingModulus)
        ));
        let tall = sample_uniform_zq(&backend, 2, n, q);
        assert!(matches!(
            gen_trapdoor_ring_lwe(&params, &tall, &s, &backend),
            Err(MathError::MismatchingMatrixDimension)
        ));
    }
}
