//! Matrices, residues, rational numbers, hashing and the storage.

use qfall_crypto::construction::hash::sha256::{hash_to_mat_zq_sha256, hash_to_zq_sha256};
use qfall_crypto::construction::hash::{HashInto, HashMatZq};
use qfall_crypto::construction::storage::Storage;
use qfall_crypto::error::{MathError, ParameterError};
use qfall_crypto::math::arith::{
    add_mod, check_modulus, log_ceil, mul_add_mod, mul_wide, pow_at_most, product_le, reduce,
    sqrt_floor, sub_mod,
};
use qfall_crypto::math::mat_z::MatZ;
use qfall_crypto::math::mat_zq::MatZq;
use qfall_crypto::math::rational::{Fraction, Rational};
use qfall_crypto::value::{Encode, Value};

fn mat_z(rows: Vec<Vec<i64>>) -> MatZ {
    MatZ::from_rows(rows).unwrap()
}

fn mat_zq(rows: Vec<Vec<i64>>, q: u64) -> MatZq {
    MatZq::from_mat_z(&mat_z(rows), q).unwrap()
}

#[test]
fn matrices_from_rows() {
    assert!(MatZ::from_rows(vec![]).is_none());
    assert!(MatZ::from_rows(vec![vec![]]).is_none());
    assert!(MatZ::from_rows(vec![vec![1, 2], vec![3]]).is_none());
    let m = mat_z(vec![vec![1, 2, 3], vec![4, 5, 6]]);
    assert_eq!(2, m.num_rows());
    assert_eq!(3, m.num_cols());
    assert_eq!(6, m.get(1, 2));
    assert_eq!(vec![vec![1, 2, 3], vec![4, 5, 6]], m.to_rows());
    assert!(!m.is_column_vector());
    assert!(mat_z(vec![vec![1], vec![2]]).is_column_vector());
    assert!(m.equals(&m.clone()));
    assert!(!m.equals(&mat_z(vec![vec![1, 2, 3], vec![4, 5, 7]])));
    assert!(!m.equals(&mat_z(vec![vec![1, 2, 3]])));
    assert_eq!(vec![vec![1, 0], vec![0, 1]], MatZ::identity(2).to_rows());
    assert_eq!(vec![vec![0, 0, 0]], MatZ::zero(1, 3).to_rows());
}

#[test]
fn integer_arithmetic() {
    let a = mat_z(vec![vec![1, 2], vec![3, 4]]);
    let b = mat_z(vec![vec![0, 1], vec![-1, 5]]);
    assert_eq!(vec![vec![1, 3], vec![2, 9]], a.add(&b).unwrap().to_rows());
    assert_eq!(vec![vec![-2, 11], vec![-4, 23]], a.mul(&b).unwrap().to_rows());
    assert_eq!(vec![vec![-1, -2], vec![-3, -4]], a.neg().unwrap().to_rows());
    assert_eq!(
        vec![vec![1, 2, 0, 1], vec![3, 4, -1, 5]],
        a.concat_horizontal(&b).unwrap().to_rows()
    );
    assert_eq!(
        vec![vec![1, 2], vec![3, 4], vec![0, 1], vec![-1, 5]],
        a.concat_vertical(&b).unwrap().to_rows()
    );
    let row = mat_z(vec![vec![1, 2, 3]]);
    assert!(matches!(a.add(&row), Err(MathError::MismatchingMatrixDimension)));
    assert!(matches!(a.mul(&row), Err(MathError::MismatchingMatrixDimension)));
    assert!(matches!(a.concat_vertical(&row), Err(MathError::MismatchingMatrixDimension)));
    assert!(matches!(a.concat_horizontal(&row), Err(MathError::MismatchingMatrixDimension)));
    assert_eq!(vec![vec![7, 10]], mat_z(vec![vec![1, 2]]).mul(&a).unwrap().to_rows());
}

#[test]
fn integer_overflow_is_reported() {
    let big = mat_z(vec![vec![i64::MAX]]);
    let one = mat_z(vec![vec![1]]);
    assert!(matches!(big.add(&one), Err(MathError::Overflow)));
    assert!(matches!(big.mul(&mat_z(vec![vec![2]])), Err(MathError::Overflow)));
    assert!(matches!(mat_z(vec![vec![i64::MIN]]).neg(), Err(MathError::Overflow)));
    assert_eq!(vec![vec![-i64::MAX]], big.neg().unwrap().to_rows());
    // the sum of the first two terms leaves the range, though the whole sum fits
    let a = mat_z(vec![vec![i64::MAX, 1, -1]]);
    let b = mat_z(vec![vec![1], vec![1], vec![1]]);
    assert!(matches!(a.mul(&b), Err(MathError::Overflow)));
    let c = mat_z(vec![vec![i64::MAX, -1, 1]]);
    assert_eq!(vec![vec![i64::MAX]], c.mul(&b).unwrap().to_rows());
}

#[test]
fn residues() {
    assert!(!check_modulus(0));
    assert!(!check_modulus(1));
    assert!(check_modulus(2));
    assert!(check_modulus(i64::MAX as u64));
    assert!(!check_modulus(1 << 63));
    assert_eq!(3, reduce(10, 7));
    assert_eq!(4, reduce(-10, 7));
    assert_eq!(0, reduce(-14, 7));
    assert_eq!(0, reduce(0, 7));
    assert_eq!(i64::MAX as u64 - 1, reduce(-1, i64::MAX as u64));
    assert_eq!(1, reduce(i64::MIN, 3));
    assert_eq!(2, add_mod(5, 4, 7));
    assert_eq!(5, sub_mod(2, 4, 7));
    assert_eq!(0, sub_mod(4, 4, 7));
    assert_eq!(6, mul_add_mod(3, 4, 6, 7));
    let q = i64::MAX as u64;
    assert_eq!(1, mul_add_mod(0, q - 1, q - 1, q));
}

#[test]
fn matrices_of_residues() {
    let a = mat_zq(vec![vec![1, -2], vec![8, 4]], 7);
    assert_eq!(7, a.modulus());
    assert_eq!(vec![vec![1, 5], vec![1, 4]], a.representatives().to_rows());
    assert_eq!(5, a.get(0, 1));
    let b = mat_zq(vec![vec![3, 3], vec![6, 0]], 7);
    assert_eq!(vec![vec![4, 1], vec![0, 4]], a.add(&b).unwrap().representatives().to_rows());
    assert_eq!(vec![vec![5, 2], vec![2, 4]], a.sub(&b).unwrap().representatives().to_rows());
    assert_eq!(vec![vec![5, 3], vec![6, 3]], a.mul(&b).unwrap().representatives().to_rows());
    assert_eq!(vec![vec![6, 2], vec![6, 3]], a.neg().representatives().to_rows());
    assert_eq!(
        vec![vec![1, 5, 3, 3], vec![1, 4, 6, 0]],
        a.concat_horizontal(&b).unwrap().representatives().to_rows()
    );
    assert_eq!(vec![vec![1], vec![1]], a.left_columns(1).representatives().to_rows());
    let e = mat_z(vec![vec![-1], vec![10]]);
    assert_eq!(vec![vec![0], vec![4]], a.mul_mat_z(&e).unwrap().representatives().to_rows());
    assert_eq!(vec![vec![1, 0], vec![0, 1]], MatZq::identity(2, 5).representatives().to_rows());
    assert!(a.equals(&a.clone()));
    assert!(!a.equals(&b));
    assert!(!mat_zq(vec![vec![1]], 5).equals(&mat_zq(vec![vec![1]], 7)));
}

#[test]
fn mismatches_of_residues_are_reported() {
    let a = mat_zq(vec![vec![1, 2], vec![3, 4]], 7);
    let other = mat_zq(vec![vec![1, 2], vec![3, 4]], 5);
    let row = mat_zq(vec![vec![1, 2, 3]], 7);
    assert!(matches!(a.add(&other), Err(MathError::MismatchingModulus)));
    assert!(matches!(a.sub(&other), Err(MathError::MismatchingModulus)));
    assert!(matches!(a.mul(&other), Err(MathError::MismatchingModulus)));
    assert!(matches!(a.concat_horizontal(&other), Err(MathError::MismatchingModulus)));
    assert!(matches!(a.add(&row), Err(MathError::MismatchingMatrixDimension)));
    assert!(matches!(a.sub(&row), Err(MathError::MismatchingMatrixDimension)));
    assert!(matches!(a.mul(&row), Err(MathError::MismatchingMatrixDimension)));
    assert!(matches!(a.concat_horizontal(&row), Err(MathError::MismatchingMatrixDimension)));
    assert!(matches!(
        a.mul_mat_z(&mat_z(vec![vec![1]])),
        Err(MathError::MismatchingMatrixDimension)
    ));
    assert!(matches!(
        MatZq::from_mat_z(&mat_z(vec![vec![1]]), 1),
        Err(MathError::InvalidModulus)
    ));
    assert!(matches!(
        MatZq::from_mat_z(&mat_z(vec![vec![1]]), u64::MAX),
        Err(MathError::InvalidModulus)
    ));
}

#[test]
fn large_moduli_do_not_overflow() {
    let q = i64::MAX as u64;
    let a = mat_zq(vec![vec![-1, -1]], q);
    let b = mat_zq(vec![vec![-1], vec![-1]], q);
    assert_eq!(vec![vec![2]], a.mul(&b).unwrap().representatives().to_rows());
    let twice = a.add(&a).unwrap().representatives().to_rows();
    assert_eq!(vec![vec![q as i64 - 2, q as i64 - 2]], twice);
}

#[test]
fn logarithms_and_powers() {
    assert_eq!(0, log_ceil(2, 0));
    assert_eq!(0, log_ceil(2, 1));
    assert_eq!(1, log_ceil(2, 2));
    assert_eq!(2, log_ceil(2, 3));
    assert_eq!(10, log_ceil(2, 1024));
    assert_eq!(11, log_ceil(2, 1025));
    assert_eq!(64, log_ceil(2, u64::MAX));
    assert_eq!(63, log_ceil(2, 1 << 63));
    assert_eq!(3, log_ceil(10, 1000));
    assert_eq!(4, log_ceil(10, 1001));
    assert!(pow_at_most(2, 10, 1024));
    assert!(!pow_at_most(2, 10, 1023));
    assert!(pow_at_most(3, 0, 1));
    assert!(!pow_at_most(2, 64, u64::MAX));
    assert!(pow_at_most(2, 63, u64::MAX));
    assert!(!pow_at_most(10, 1_000_000, u64::MAX));
}

#[test]
fn rational_numbers() {
    assert!(Rational::new(1, 0).is_none());
    let half = Rational::new(1, 2).unwrap();
    let third = Rational::new(2, 6).unwrap();
    let two = Rational::from_integer(2);
    assert_eq!(1, half.num());
    assert_eq!(2, half.den());
    assert!(third.lt(&half));
    assert!(third.le(&half));
    assert!(!half.lt(&third));
    assert!(half.le(&Rational::new(2, 4).unwrap()));
    assert!(!half.lt(&Rational::new(2, 4).unwrap()));
    assert!(half.lt(&two));
    let large = Rational::new(u32::MAX, 1).unwrap();
    let small = Rational::new(1, u32::MAX).unwrap();
    assert!(small.lt(&large));
    assert!(!large.le(&small));
}

#[test]
fn hashing_to_residues() {
    assert_eq!(1, hash_to_zq_sha256(&b"abc".to_vec(), 7));
    assert_eq!(856, hash_to_zq_sha256(&b"Hello World!".to_vec(), 1024));
    assert_eq!(1432534189221871226, hash_to_zq_sha256(&Vec::new(), i64::MAX as u64));
}

#[test]
fn hashing_to_matrices() {
    let h = hash_to_mat_zq_sha256("Hello World!", 3, 2, 113);
    assert_eq!(113, h.modulus());
    assert_eq!(vec![vec![31, 36], vec![110, 41], vec![0, 50]], h.representatives().to_rows());
    assert_eq!(
        vec![vec![1978], vec![664], vec![7930], vec![1923]],
        hash_to_mat_zq_sha256("identity", 4, 1, 8209).representatives().to_rows()
    );
    assert_eq!(
        vec![vec![95], vec![38]],
        hash_to_mat_zq_sha256("grüße", 2, 1, 97).representatives().to_rows()
    );
    assert!(HashMatZq::new(1, 1, 1).is_none());
    assert!(HashMatZq::new(7, 0, 1).is_none());
    assert!(HashMatZq::new(7, 1, 0).is_none());
    let hash = HashMatZq::new(113, 3, 2).unwrap();
    assert!(hash.hash("Hello World!").equals(&h));
    assert!(hash.hash("Hello World!").equals(&hash.hash("Hello World!")));
    assert!(!hash.hash("Hello World?").equals(&h));
}

#[test]
fn storage_answers_again() {
    let mut storage: Storage<String, MatZ> = Storage::new();
    assert_eq!(0, storage.len());
    assert!(storage.get(&"a".to_owned()).is_none());
    assert!(storage.insert("a".to_owned(), mat_z(vec![vec![1]])));
    assert!(storage.insert("b".to_owned(), mat_z(vec![vec![2]])));
    // a request keeps its first answer
    assert!(!storage.insert("a".to_owned(), mat_z(vec![vec![3]])));
    assert_eq!(2, storage.len());
    assert!(storage.contains_key(&"a".to_owned()));
    assert!(!storage.contains_key(&"c".to_owned()));
    assert_eq!(vec![vec![1]], storage.get(&"a".to_owned()).unwrap().to_rows());
    assert_eq!(vec![vec![2]], storage.get(&"b".to_owned()).unwrap().to_rows());
    assert_eq!("a", storage.key_at(0));
    assert_eq!("b", storage.key_at(1));
    assert_eq!(vec![vec![2]], storage.value_at(1).to_rows());
}

#[test]
fn values_compare_and_copy() {
    let a = (mat_z(vec![vec![1]]), "id".to_owned());
    let b = (mat_z(vec![vec![1]]), "id".to_owned());
    let c = (mat_z(vec![vec![1]]), "other".to_owned());
    assert!(a.equals(&b));
    assert!(!a.equals(&c));
    assert!(a.copy().equals(&a));
    assert_eq!("id", a.1.encode());
}

#[test]
fn errors_have_messages() {
    assert_eq!(
        "Security is not guaranteed as q < 5 * r * (m + 1), but q >= 5 * r * (m + 1) is required.",
        ParameterError::ModulusBelowNoiseBound.message()
    );
    assert_eq!(
        "Security is not guaranteed as r < sqrt(m), but r >= sqrt(m) is required.",
        ParameterError::WidthBelowSqrtM.message()
    );
    assert_eq!(
        "Security is not guaranteed as m <= (n + 1) * log(q), \
        but m > (n + 1) * log(q) is required.",
        ParameterError::DimensionBelowLogBound.message()
    );
    assert_eq!(
        "Correctness is not guaranteed as α > 1/(2 * r * sqrt(m + 1) * log(n)), \
        but α <= 1/(2 * r * sqrt(m + 1) * log(n)) is required.",
        ParameterError::NoiseAboveCorrectnessBound.message()
    );
    assert_eq!(
        "n must be chosen bigger than 1.",
        ParameterError::SecurityParameterBelowTwo.message()
    );
    assert_eq!(
        "n must be chosen bigger than 0.",
        ParameterError::SecurityParameterTooSmall.message()
    );
    assert!(MathError::MismatchingMatrixDimension.message().contains("dimensions"));
    assert!(MathError::RejectedSample.message().contains("backend"));
}

#[test]
fn matrices_as_text() {
    assert_eq!("[[1, 2],[3, 4]] mod 7", mat_zq(vec![vec![1, 2], vec![3, 4]], 7).encode());
    assert_eq!("[[0]] mod 2", mat_zq(vec![vec![0]], 2).encode());
    assert_eq!(
        "[[10, 0, 1022]] mod 1024",
        mat_zq(vec![vec![10, 1024, -2]], 1024).encode()
    );
    assert_eq!(
        "[[9223372036854775806],[100]] mod 9223372036854775807",
        mat_zq(vec![vec![-1], vec![100]], i64::MAX as u64).encode()
    );
}

#[test]
fn square_roots_rounded_down() {
    assert_eq!(0, sqrt_floor(0));
    assert_eq!(1, sqrt_floor(1));
    assert_eq!(1, sqrt_floor(3));
    assert_eq!(2, sqrt_floor(4));
    assert_eq!(10, sqrt_floor(116));
    assert_eq!(10, sqrt_floor(120));
    assert_eq!(11, sqrt_floor(121));
    assert_eq!(4294967295, sqrt_floor(u64::MAX));
    assert_eq!(4294967295, sqrt_floor(4294967295 * 4294967295));
    assert_eq!(4294967294, sqrt_floor(4294967295 * 4294967295 - 1));
}

/// The product of two integers of 128 bits, in two halves.
#[test]
fn wide_products() {
    assert_eq!((0, 12), mul_wide(3, 4));
    assert_eq!((0, 0), mul_wide(0, u128::MAX));
    assert_eq!((0, u128::MAX), mul_wide(u128::MAX, 1));
    // 2^64 * 2^64 = 2^128
    assert_eq!((1, 0), mul_wide(1 << 64, 1 << 64));
    // (2^128 - 1)^2 = (2^128 - 2) * 2^128 + 1
    assert_eq!((u128::MAX - 1, 1), mul_wide(u128::MAX, u128::MAX));
    // (2^64 + 3) * (2^64 + 5) = 2^128 + 8 * 2^64 + 15
    assert_eq!((1, (8 << 64) + 15), mul_wide((1 << 64) + 3, (1 << 64) + 5));
    // (2^127 + 1) * 6 = 3 * 2^128 + 6
    assert_eq!((3, 6), mul_wide((1 << 127) + 1, 6));
}

/// Products are compared as the integers that they are, however large.
#[test]
fn products_are_compared_exactly() {
    assert!(product_le(3, 4, 2, 6));
    assert!(product_le(3, 4, 13, 1));
    assert!(!product_le(3, 4, 11, 1));
    assert!(product_le(0, u128::MAX, 0, 0));
    assert!(!product_le(1, 1, 0, u128::MAX));
    assert!(product_le(u128::MAX, u128::MAX, u128::MAX, u128::MAX));
    assert!(!product_le(u128::MAX, u128::MAX, u128::MAX - 1, u128::MAX));
    assert!(product_le(u128::MAX - 1, u128::MAX, u128::MAX, u128::MAX - 1));
    // 2^128 against 2^128 - 1, and against itself
    assert!(!product_le(1 << 64, 1 << 64, 1, u128::MAX));
    assert!(product_le(1 << 64, 1 << 64, 1 << 127, 2));
    // equal high halves: 2^128 + 2^64 against 2^128 + 2^65
    assert!(product_le(1 << 64, (1 << 64) + 1, 1 << 64, (1 << 64) + 2));
    assert!(!product_le(1 << 64, (1 << 64) + 2, 1 << 64, (1 << 64) + 1));
}

/// Rational numbers with wide parts.
#[test]
fn wide_rational_numbers() {
    assert!(Fraction::new(1, 0).is_none());
    let f = Fraction::new(10, 4).unwrap();
    // kept as given, not reduced
    assert_eq!(10, f.num());
    assert_eq!(4, f.den());
    let f = Fraction::new(u128::MAX, u128::MAX).unwrap();
    assert_eq!((u128::MAX, u128::MAX), (f.num(), f.den()));
    let f = Fraction::new(0, 7).unwrap();
    assert_eq!((0, 7), (f.num(), f.den()));
    let f = Fraction::from_rational(&Rational::new(u32::MAX, 3).unwrap());
    assert_eq!((u32::MAX as u128, 3), (f.num(), f.den()));
}

#[test]
fn rejected_samples_have_a_message() {
    assert_eq!(
        "the backend returned a value that is not what it should be",
        ParameterError::RejectedSample.message()
    );
    assert_eq!(
        "The width is no square root of m as r > sqrt(m) + 1, but r <= sqrt(m) + 1 is required.",
        ParameterError::WidthAboveSqrtM.message()
    );
    assert!(!MathError::RejectedSample.message().is_empty());
}
