//! The schemes from end to end, over a backend that is good enough to test with.

use qfall_crypto::backend::Backend;
use qfall_crypto::construction::hash::HashInto;
use qfall_crypto::construction::identity_based_encryption::dual_regev_ibe::DualRegevIBE;
use qfall_crypto::construction::identity_based_encryption::IBEScheme;
use qfall_crypto::construction::pk_encryption::ccs_from_ibe::CCSfromIBE;
use qfall_crypto::construction::pk_encryption::dual_regev::DualRegev;
use qfall_crypto::construction::pk_encryption::PKEncryptionSchemeMut;
use qfall_crypto::construction::identity_based_encryption::dual_regev_ibe::{
    modulus_range, noise_rate,
};
use qfall_crypto::construction::signature::fdh::Fdh;
use qfall_crypto::construction::signature::SignatureScheme;
use qfall_crypto::construction::storage::Storage;
use qfall_crypto::error::{MathError, ParameterError};
use qfall_crypto::math::mat_z::MatZ;
use qfall_crypto::math::mat_zq::MatZq;
use qfall_crypto::math::rational::{Fraction, Rational};
use qfall_crypto::primitive::psf::gpv::{particular_solution, preimage_from, PSFGPV};
use qfall_crypto::primitive::psf::PSF;
use qfall_crypto::value::{Encode, Value};
use qfall_crypto::sample::g_trapdoor::gadget_parameters::GadgetParameters;
use std::cell::Cell;

/// A backend with a small generator of its own. Its lattice points are the
/// nearest ones that Babai's algorithm finds, which is short enough to test with.
struct TestBackend {
    state: Cell<u64>,
}

impl TestBackend {
    fn new(seed: u64) -> Self {
        TestBackend { state: Cell::new(seed | 1) }
    }

    fn next(&self) -> u64 {
        let mut x = self.state.get();
        x ^= x << 13;
        x ^= x >> 7;
        x ^= x << 17;
        self.state.set(x);
        x
    }

    fn unit_interval(&self) -> f64 {
        ((self.next() >> 11) as f64 + 0.5) / ((1u64 << 53) as f64)
    }
}

fn to_rational(value: f64) -> Rational {
    let den: u32 = 1 << 16;
    Rational::new((value * den as f64).round() as u32, den).unwrap()
}

/// The least rational number with sixteen binary places that is not below
/// `value`.
fn to_rational_above(value: f64) -> Rational {
    let den: u32 = 1 << 16;
    Rational::new((value * den as f64).ceil() as u32, den).unwrap()
}

fn is_prime(x: u64) -> bool {
    if x < 2 {
        return false;
    }
    let mut d = 2;
    while d * d <= x {
        if x % d == 0 {
            return false;
        }
        d += 1;
    }
    true
}

impl Backend for TestBackend {
    fn uniform(&self, bound: u64) -> u64 {
        self.next() % bound
    }

    fn prime(&self, lower: u64, upper: u64) -> u64 {
        loop {
            let candidate = lower + self.next() % (upper - lower + 1);
            if is_prime(candidate) {
                return candidate;
            }
        }
    }

    fn lattice_point(&self, basis: &MatZ, _n: usize, center: &MatZ, _s: &Rational) -> MatZ {
        let rows = basis.to_rows();
        let m = rows.len();
        let columns: Vec<Vec<f64>> =
            (0..m).map(|j| (0..m).map(|i| rows[i][j] as f64).collect()).collect();
        let mut gso: Vec<Vec<f64>> = Vec::new();
        for j in 0..m {
            let mut v = columns[j].clone();
            for prev in gso.iter() {
                let norm: f64 = prev.iter().map(|x| x * x).sum();
                let dot: f64 = columns[j].iter().zip(prev.iter()).map(|(a, b)| a * b).sum();
                for i in 0..m {
                    v[i] -= dot / norm * prev[i];
                }
            }
            gso.push(v);
        }
        let mut target: Vec<f64> = center.to_rows().iter().map(|row| row[0] as f64).collect();
        let mut point: Vec<i64> = vec![0; m];
        for j in (0..m).rev() {
            let norm: f64 = gso[j].iter().map(|x| x * x).sum();
            let dot: f64 = target.iter().zip(gso[j].iter()).map(|(a, b)| a * b).sum();
            let c = (dot / norm).round();
            for i in 0..m {
                target[i] -= c * columns[j][i];
                point[i] += c as i64 * rows[i][j];
            }
        }
        MatZ::from_rows(point.into_iter().map(|x| vec![x]).collect()).unwrap()
    }

    fn gaussian(&self, _n: usize, alpha: &Fraction, q: u64) -> i64 {
        let width = alpha.num() as f64 / alpha.den() as f64 * q as f64;
        let sigma = width / (2.0 * std::f64::consts::PI).sqrt();
        let radius = (-2.0 * self.unit_interval().ln()).sqrt();
        let angle = 2.0 * std::f64::consts::PI * self.unit_interval();
        // the tail is cut at six widths
        let six_widths = (6 * q as u128 * alpha.num() / alpha.den()) as i64;
        ((sigma * radius * angle.cos()).round() as i64).clamp(-six_widths, six_widths)
    }

    fn sqrt(&self, x: u64) -> Rational {
        to_rational_above((x as f64).sqrt())
    }

    fn log2(&self, x: u64) -> Rational {
        to_rational((x as f64).log2())
    }
}

fn cycle(cryptosystem: &mut DualRegevIBE<TestBackend>, id: &str, msg: i64) -> i64 {
    let id = String::from(id);
    let (pk, sk) = cryptosystem.setup();
    let id_sk = cryptosystem.extract(&pk, &sk, &id).unwrap();
    let cipher = cryptosystem.enc(&pk, &id, msg).unwrap();
    cryptosystem.dec(&id_sk, &cipher).unwrap()
}

/// Checks whether `new` is available for small parameters.
#[test]
fn new_availability() {
    let two = Rational::from_integer(2);
    let rate = Fraction::from_rational(&two);
    let _ = DualRegevIBE::new(2, 2, two, rate, TestBackend::new(1)).unwrap();
    let _ = DualRegevIBE::new(2, 2, two, rate, TestBackend::new(2)).unwrap();
    let _ = DualRegevIBE::new(2, 2, two, rate, TestBackend::new(3)).unwrap();
    let _ = DualRegevIBE::new(2, 2, two, rate, TestBackend::new(4)).unwrap();
}

/// Ensures that `new_from_n` is available.
#[test]
fn availability() {
    for seed in 0..10 {
        let ibe = DualRegevIBE::new_from_n(4, TestBackend::new(seed)).unwrap();
        assert_eq!(4, ibe.dual_regev.n());
        assert!(8192 <= ibe.dual_regev.q() && ibe.dual_regev.q() <= 16384);
        assert!(is_prime(ibe.dual_regev.q()));
        assert_eq!(116, ibe.dual_regev.m());
    }
}

/// Checks whether `new_from_n` fails for the invalid input `n = 1`.
#[test]
#[should_panic]
fn invalid_n() {
    DualRegevIBE::new_from_n(1, TestBackend::new(1)).unwrap();
}

/// The error for an invalid `n` names the parameter.
#[test]
fn invalid_n_is_reported() {
    assert!(matches!(
        DualRegevIBE::new_from_n(1, TestBackend::new(1)),
        Err(ParameterError::SecurityParameterBelowTwo)
    ));
    assert!(matches!(
        DualRegevIBE::new_from_n(0, TestBackend::new(1)),
        Err(ParameterError::SecurityParameterBelowTwo)
    ));
}

/// Checks whether the full cycle of setup, extract, enc, dec works properly
/// for message 0 and the default.
#[test]
fn cycle_zero_default() {
    let mut cryptosystem = DualRegevIBE::new_default(TestBackend::new(11)).unwrap();
    assert_eq!(0, cycle(&mut cryptosystem, "Hello World!", 0));
}

/// Checks whether the full cycle of setup, extract, enc, dec works properly
/// for message 1 and the default.
#[test]
fn cycle_one_default() {
    let mut cryptosystem = DualRegevIBE::new_default(TestBackend::new(12)).unwrap();
    assert_eq!(1, cycle(&mut cryptosystem, "Hello World!", 1));
}

/// Checks whether the full cycle of setup, extract, enc, dec works properly
/// for message 0 and small n.
#[test]
fn cycle_zero_small_n() {
    let mut cryptosystem = DualRegevIBE::new_from_n(5, TestBackend::new(13)).unwrap();
    assert_eq!(0, cycle(&mut cryptosystem, "Hel213lo World!", 0));
}

/// Checks whether the full cycle of setup, extract, enc, dec works properly
/// for message 1 and small n.
#[test]
fn cycle_one_small_n() {
    let mut cryptosystem = DualRegevIBE::new_from_n(5, TestBackend::new(14)).unwrap();
    assert_eq!(1, cycle(&mut cryptosystem, "Hel213lo World!", 1));
}

/// Several identities, message 1 and the default parameters, which pass both
/// checks.
#[test]
fn new_from_n() {
    for i in 1..=5 {
        let msg = 1;
        let id = format!("Hello World!{i}");
        let mut cryptosystem = DualRegevIBE::new_default(TestBackend::new(100 + i)).unwrap();

        cryptosystem.check_security().unwrap();
        cryptosystem.check_correctness().unwrap();

        let (pk, sk) = cryptosystem.setup();

        let id_sk = cryptosystem.extract(&pk, &sk, &id).unwrap();
        for _j in 1..=100 {
            let cipher = cryptosystem.enc(&pk, &id, msg).unwrap();
            let m = cryptosystem.dec(&id_sk, &cipher).unwrap();

            assert_eq!(msg, m);
        }
    }
}

/// Bits 0 and 1 under one identity, a hundred times each.
#[test]
fn both_bits_a_hundred_times() {
    let id = String::from("identity");
    let mut cryptosystem = DualRegevIBE::new_default(TestBackend::new(77)).unwrap();
    let (pk, sk) = cryptosystem.setup();
    let first = cryptosystem.extract(&pk, &sk, &id).unwrap();
    let second = cryptosystem.extract(&pk, &sk, &id).unwrap();
    assert!(first.equals(&second));
    for bit in [0, 1] {
        for _ in 0..100 {
            let cipher = cryptosystem.enc(&pk, &id, bit).unwrap();
            assert_eq!(bit, cryptosystem.dec(&first, &cipher).unwrap());
        }
    }
}

/// Checks whether the storage works properly.
#[test]
fn extract_storage_same_identity_mk_pk() {
    let id = "Hello World!".to_string();
    let mut cryptosystem = DualRegevIBE::new_default(TestBackend::new(21)).unwrap();
    let (pk, sk) = cryptosystem.setup();

    let id_sk_1 = cryptosystem.extract(&pk, &sk, &id).unwrap();
    let id_sk_2 = cryptosystem.extract(&pk, &sk, &id).unwrap();

    assert!(id_sk_1.equals(&id_sk_2));
    assert_eq!(1, cryptosystem.storage.len());
}

/// Checks whether the storage works properly for different master keys.
#[test]
fn extract_storage_same_identity_different_mk_pk() {
    let id = "Hello World!".to_string();
    let mut cryptosystem = DualRegevIBE::new_default(TestBackend::new(22)).unwrap();
    let (pk_1, sk_1) = cryptosystem.setup();
    let (pk_2, sk_2) = cryptosystem.setup();

    let id_sk_1 = cryptosystem.extract(&pk_1, &sk_1, &id).unwrap();
    let id_sk_2 = cryptosystem.extract(&pk_2, &sk_2, &id).unwrap();

    assert!(!id_sk_1.equals(&id_sk_2));
    assert_eq!(2, cryptosystem.storage.len());
}

/// The secret key of an identity is a preimage of the hash of the identity.
#[test]
fn extracted_key_is_a_preimage() {
    let id = "Hello World!".to_string();
    let mut cryptosystem = DualRegevIBE::new_default(TestBackend::new(23)).unwrap();
    let (pk, sk) = cryptosystem.setup();
    let id_sk = cryptosystem.extract(&pk, &sk, &id).unwrap();
    let u = qfall_crypto::construction::hash::sha256::hash_to_mat_zq_sha256(
        &id,
        4,
        1,
        cryptosystem.dual_regev.q(),
    );
    assert!(cryptosystem.psf.f_a(&pk, &id_sk).unwrap().equals(&u));
    assert!(cryptosystem.psf.check_domain(&id_sk));
}

/// Ensure that the generated signature is valid.
#[test]
fn ensure_valid_signature_is_generated() {
    let s = Rational::from_integer(250);
    let mut fdh = Fdh::init_gpv(8, 113, s, TestBackend::new(31)).unwrap();

    let m = "Hello World!";

    let (pk, sk) = fdh.gen();
    let sigma = fdh.sign(m.to_owned(), &sk, &pk).unwrap();

    assert!(sigma.equals(&fdh.sign(m.to_owned(), &sk, &pk).unwrap()));
    assert!(fdh.vfy(m.to_owned(), &sigma, &pk));
}

/// A signature is not accepted for another message, nor is a long vector.
#[test]
fn forged_signatures_are_rejected() {
    let s = Rational::from_integer(250);
    let mut fdh = Fdh::init_gpv(8, 113, s, TestBackend::new(32)).unwrap();
    let (pk, sk) = fdh.gen();
    let sigma = fdh.sign("Hello World!".to_owned(), &sk, &pk).unwrap();
    assert!(!fdh.vfy("Hello World?".to_owned(), &sigma, &pk));

    let m = sigma.num_rows();
    let long = MatZ::from_rows((0..m).map(|_| vec![1_000_000]).collect()).unwrap();
    assert!(!fdh.psf.check_domain(&long));
    assert!(!fdh.vfy("Hello World!".to_owned(), &long, &pk));

    let short = MatZ::from_rows(vec![vec![0], vec![1]]).unwrap();
    assert!(!fdh.vfy("Hello World!".to_owned(), &short, &pk));
}

/// Ensure that an entry is actually added to the local storage.
#[test]
fn storage_filled() {
    let s = Rational::from_integer(10);
    let mut fdh = Fdh::init_gpv(5, 1024, s, TestBackend::new(41)).unwrap();

    let m = "Hello World!";
    let (pk, sk) = fdh.gen();
    let _ = fdh.sign(m.to_owned(), &sk, &pk).unwrap();

    assert!(fdh.storage.contains_key(&(m.to_owned(), pk.copy())));
    assert!(!fdh.storage.contains_key(&("Hello".to_owned(), pk.copy())));
    let (other, _) = fdh.gen();
    assert!(!fdh.storage.contains_key(&(m.to_owned(), other)));
    assert_eq!(1, fdh.storage.len());
}

/// Ensure that after a round through JSON the storage still holds all entries.
#[test]
fn reload_hashmap() {
    let s = Rational::from_integer(10);
    let mut fdh = Fdh::init_gpv(5, 1024, s, TestBackend::new(42)).unwrap();

    // fill two entries in the storage
    let (pk, sk) = fdh.gen();
    let _ = fdh.sign("Hello World!".to_owned(), &sk, &pk).unwrap();
    let _ = fdh.sign("Hello again!".to_owned(), &sk, &pk).unwrap();

    let matrix = |rows: Vec<Vec<i64>>| {
        serde_json::Value::Array(rows.into_iter().map(serde_json::Value::from).collect())
    };
    let mut entries: Vec<serde_json::Value> = Vec::new();
    for i in 0..fdh.storage.len() {
        let (message, key) = fdh.storage.key_at(i);
        let mut object = serde_json::Map::new();
        object.insert("message".to_owned(), serde_json::Value::from(message.clone()));
        object.insert("modulus".to_owned(), serde_json::Value::from(key.modulus()));
        object.insert("public_key".to_owned(), matrix(key.representatives().to_rows()));
        object.insert("signature".to_owned(), matrix(fdh.storage.value_at(i).to_rows()));
        entries.push(serde_json::Value::Object(object));
    }
    let fdh_string = serde_json::to_string(&serde_json::Value::Array(entries))
        .expect("Unable to create a json object");

    let parsed: serde_json::Value = serde_json::from_str(&fdh_string).unwrap();
    let rows_of = |value: &serde_json::Value| -> Vec<Vec<i64>> {
        value
            .as_array()
            .unwrap()
            .iter()
            .map(|row| row.as_array().unwrap().iter().map(|x| x.as_i64().unwrap()).collect())
            .collect()
    };
    let mut storage_2: Storage<(String, MatZq), MatZ> = Storage::new();
    for entry in parsed.as_array().unwrap() {
        let message = entry["message"].as_str().unwrap().to_owned();
        let modulus = entry["modulus"].as_u64().unwrap();
        let key = MatZ::from_rows(rows_of(&entry["public_key"])).unwrap();
        let key = MatZq::from_mat_z(&key, modulus).unwrap();
        let signature = MatZ::from_rows(rows_of(&entry["signature"])).unwrap();
        assert!(storage_2.insert((message, key), signature));
    }

    assert_eq!(fdh.storage.len(), storage_2.len());
    for i in 0..fdh.storage.len() {
        let kept = storage_2.get(fdh.storage.key_at(i)).unwrap();
        assert!(kept.equals(fdh.storage.value_at(i)));
    }
    let sigma = fdh.sign("Hello World!".to_owned(), &sk, &pk).unwrap();
    assert!(sigma.equals(storage_2.get(&("Hello World!".to_owned(), pk.copy())).unwrap()));
}

/// The trapdoor of `trap_gen` gives solutions, and adding a point that the
/// public matrix sends to zero keeps them solutions.
#[test]
fn preimages_from_the_trapdoor() {
    let gp = GadgetParameters::init_default(3, 64).unwrap();
    let psf = PSFGPV { gp, s: Rational::from_integer(100), backend: TestBackend::new(5) };
    let (a, (r, basis)) = psf.trap_gen();
    let u = MatZq::from_mat_z(&MatZ::from_rows(vec![vec![5], vec![63], vec![0]]).unwrap(), 64)
        .unwrap();
    let sol = particular_solution(&gp, &r, &u).unwrap();
    assert!(a.mul_mat_z(&sol).unwrap().equals(&u));

    let zero = MatZ::zero(gp.m(), 1);
    assert!(preimage_from(&a, &u, &sol, &zero).unwrap().equals(&sol));

    // every column of the short basis is sent to zero
    let nothing = MatZq::from_mat_z(&MatZ::zero(3, gp.m()), 64).unwrap();
    assert!(a.mul_mat_z(&basis).unwrap().equals(&nothing));

    // a vector that is not sent to zero is rejected
    let mut rows = vec![vec![0]; gp.m()];
    rows[gp.m() - 1][0] = 1;
    let off = MatZ::from_rows(rows).unwrap();
    assert_eq!(Err(MathError::RejectedSample), preimage_from(&a, &u, &sol, &off).map(|_| ()));
    let short = MatZ::zero(2, 1);
    assert_eq!(
        Err(MathError::MismatchingMatrixDimension),
        preimage_from(&a, &u, &sol, &short).map(|_| ())
    );
    let huge = MatZ::from_rows(vec![vec![i64::MAX]; gp.m()]).unwrap();
    let ones = MatZ::from_rows(vec![vec![1]; gp.m()]).unwrap();
    assert_eq!(Err(MathError::Overflow), preimage_from(&a, &u, &huge, &ones).map(|_| ()));

    let sigma = psf.samp_p(&a, &(r, basis), &u).unwrap();
    assert!(psf.f_a(&a, &sigma).unwrap().equals(&u));
}

/// The default parameters for `n = 4` pass both checks, and a modulus below
/// `5 * s * (m + 1)` fails the check of the security, which names that bound.
#[test]
fn validators() {
    let ibe = DualRegevIBE::new_default(TestBackend::new(51)).unwrap();
    assert!(ibe.check_security().is_ok());
    assert!(ibe.check_correctness().is_ok());

    // m = 60 and s = 10: 5 * s * (m + 1) = 3050 > 113
    let ten = Rational::from_integer(10);
    let small = Fraction::new(1, 1000).unwrap();
    let ibe = DualRegevIBE::new(4, 113, ten, small, TestBackend::new(52)).unwrap();
    assert_eq!(60, ibe.dual_regev.m());
    let error = ibe.check_security().unwrap_err();
    assert_eq!(ParameterError::ModulusBelowNoiseBound, error);
    assert_eq!(
        "Security is not guaranteed as q < 5 * r * (m + 1), but q >= 5 * r * (m + 1) is required.",
        error.message()
    );
    // 3050 is the least modulus that passes this bound for s = 10 and m = 60;
    // moduli that keep m = 60 stay below it
    let ibe = DualRegevIBE::new(4, 127, ten, small, TestBackend::new(52)).unwrap();
    assert_eq!(Err(ParameterError::ModulusBelowNoiseBound), ibe.check_security());
}

/// Each requirement of the two checks, violated in turn.
#[test]
fn validators_name_the_violated_requirement() {
    let one = Rational::from_integer(1);
    let small = Fraction::new(1, 1000).unwrap();
    // m = 116: 5 * 1 * 117 = 585 <= 8209, but 1 < sqrt(116)
    let ibe = DualRegevIBE::new(4, 8209, one, small, TestBackend::new(53)).unwrap();
    assert_eq!(116, ibe.dual_regev.m());
    assert_eq!(Err(ParameterError::WidthBelowSqrtM), ibe.check_security());

    // the width against the square root, exactly: 10.770^2 < 116 <= 10.771^2
    let below = Rational::new(10770, 1000).unwrap();
    let ibe = DualRegevIBE::new(4, 8209, below, small, TestBackend::new(54)).unwrap();
    assert_eq!(Err(ParameterError::WidthBelowSqrtM), ibe.check_security());
    let above = Rational::new(10771, 1000).unwrap();
    let ibe = DualRegevIBE::new(4, 8209, above, small, TestBackend::new(54)).unwrap();
    assert_eq!(Ok(()), ibe.check_security());

    // s = 11 >= sqrt(116) = 10.77..., and 5 * 11 * 117 = 6435 <= 8209;
    // m = 116 > 5 * 14, whatever is given as the logarithm
    let eleven = Rational::from_integer(11);
    let ibe = DualRegevIBE::new(4, 8209, eleven, small, TestBackend::new(54)).unwrap();
    assert_eq!(Ok(()), ibe.check_security());
    assert_eq!(Ok(()), ibe.check_security_from(&Rational::from_integer(1000)));

    // n = 1 and q = 8209: m = 28 lies between 2 * 13 and 2 * 14, so that the
    // logarithm that is given decides
    let ibe = DualRegevIBE::new(1, 8209, eleven, small, TestBackend::new(54)).unwrap();
    assert_eq!(28, ibe.dual_regev.m());
    assert_eq!(Ok(()), ibe.check_security_from(&Rational::new(139, 10).unwrap()));
    assert_eq!(
        Err(ParameterError::DimensionBelowLogBound),
        ibe.check_security_from(&Rational::from_integer(14))
    );
    assert_eq!(Ok(()), ibe.check_security());
    // n = 1 and q = 8192: m = 26 is not above 2 * 13, whatever is given
    let ibe = DualRegevIBE::new(1, 8192, eleven, small, TestBackend::new(54)).unwrap();
    assert_eq!(26, ibe.dual_regev.m());
    assert_eq!(
        Err(ParameterError::DimensionBelowLogBound),
        ibe.check_security_from(&Rational::from_integer(0))
    );
    assert_eq!(Err(ParameterError::DimensionBelowLogBound), ibe.check_security());

    // alpha <= 1 / (2 * 11 * 11 * 2) = 1 / 484
    let sqrt_m1 = Rational::from_integer(11);
    let log_n = Rational::from_integer(2);
    let at = Fraction::new(1, 484).unwrap();
    let above = Fraction::new(1, 483).unwrap();
    let ibe = DualRegevIBE::new(4, 8209, eleven, at, TestBackend::new(55)).unwrap();
    assert_eq!(Ok(()), ibe.check_correctness_from(&sqrt_m1, &log_n));
    let ibe = DualRegevIBE::new(4, 8209, eleven, above, TestBackend::new(55)).unwrap();
    assert_eq!(
        Err(ParameterError::NoiseAboveCorrectnessBound),
        ibe.check_correctness_from(&sqrt_m1, &log_n)
    );
    // with sqrt(117) = 10.8166... the bound is 1 / 475.93...
    let below = Fraction::new(1, 476).unwrap();
    let ibe = DualRegevIBE::new(4, 8209, eleven, below, TestBackend::new(55)).unwrap();
    assert_eq!(Ok(()), ibe.check_correctness());
    let beyond = Fraction::new(1, 475).unwrap();
    let ibe = DualRegevIBE::new(4, 8209, eleven, beyond, TestBackend::new(55)).unwrap();
    assert_eq!(Err(ParameterError::NoiseAboveCorrectnessBound), ibe.check_correctness());
    assert!(ParameterError::NoiseAboveCorrectnessBound
        .message()
        .contains("α <= 1/(2 * r * sqrt(m + 1) * log(n)) is required"));
    assert_eq!(
        "n must be chosen bigger than 1.",
        ParameterError::SecurityParameterBelowTwo.message()
    );

    // n = 1 is too small for the check of correctness
    let ibe = DualRegevIBE::new(1, 8209, eleven, at, TestBackend::new(56)).unwrap();
    assert_eq!(
        Err(ParameterError::SecurityParameterBelowTwo),
        ibe.check_correctness_from(&sqrt_m1, &log_n)
    );
}

/// The range of the modulus and the noise rate that `new_from_n` derives.
#[test]
fn derived_parameters() {
    assert_eq!(Ok((512, 1024)), modulus_range(2));
    assert_eq!(Ok((29525, 59049)), modulus_range(3));
    assert_eq!(Ok((8192, 16384)), modulus_range(4));
    assert_eq!(Ok((7813, 15625)), modulus_range(5));
    assert_eq!(Ok((58825, 117649)), modulus_range(7));
    assert_eq!(Ok((16384, 32768)), modulus_range(8));
    assert_eq!(Err(ParameterError::SecurityParameterBelowTwo), modulus_range(1));
    assert_eq!(Err(ParameterError::TooLarge), modulus_range(1 << 13));
    assert!(modulus_range(6000).is_ok());

    // 1 / (2 * 2 * 4 * 8) = 1 / 128, exactly
    let rate = noise_rate(
        &Rational::from_integer(2),
        &Rational::from_integer(4),
        &Rational::from_integer(8),
    )
    .unwrap();
    assert_eq!(1, rate.num());
    assert_eq!(128, rate.den());
    // 1 / (2 * 3) = 1 / 6 is not rounded
    let rate = noise_rate(
        &Rational::from_integer(3),
        &Rational::from_integer(1),
        &Rational::from_integer(1),
    )
    .unwrap();
    assert_eq!(1, rate.num());
    assert_eq!(6, rate.den());
    // the parts of the three values are multiplied as they are:
    // (2 * 5 * 1) / (2 * (3 * 7 * 11))
    let rate = noise_rate(
        &Rational::new(3, 2).unwrap(),
        &Rational::new(7, 5).unwrap(),
        &Rational::from_integer(11),
    )
    .unwrap();
    assert_eq!(10, rate.num());
    assert_eq!(462, rate.den());
    // 1 / (2 * 1/8) = 4
    let rate = noise_rate(
        &Rational::new(1, 8).unwrap(),
        &Rational::from_integer(1),
        &Rational::from_integer(1),
    )
    .unwrap();
    assert_eq!(8, rate.num());
    assert_eq!(2, rate.den());
    // the largest parts still fit
    let max = Rational::new(u32::MAX, u32::MAX).unwrap();
    let rate = noise_rate(&max, &max, &max).unwrap();
    let cube = (u32::MAX as u128) * (u32::MAX as u128) * (u32::MAX as u128);
    assert_eq!(cube, rate.num());
    assert_eq!(2 * cube, rate.den());
    // no reciprocal of zero
    for zero_at in 0..3 {
        let part = |i: usize| Rational::from_integer(if i == zero_at { 0 } else { 5 });
        assert!(noise_rate(&part(0), &part(1), &part(2)).is_none());
    }
}

/// The dual Regev encryption with a secret and noise given by hand.
#[test]
fn dual_regev_by_hand() {
    let alpha = Fraction::new(1, 100).unwrap();
    let scheme = DualRegev::new(2, 3, 101, alpha).unwrap();
    // pk = [A | A * x] for x = (1, 0, 1)
    let x = MatZ::from_rows(vec![vec![1], vec![0], vec![1]]).unwrap();
    let pk = MatZq::from_mat_z(
        &MatZ::from_rows(vec![vec![1, 2, 3, 4], vec![5, 6, 7, 12]]).unwrap(),
        101,
    )
    .unwrap();
    let s = MatZq::from_mat_z(&MatZ::from_rows(vec![vec![2, 3]]).unwrap(), 101).unwrap();
    let e = MatZ::from_rows(vec![vec![1, -1, 0, 2]]).unwrap();
    // s * pk = (17, 22, 27, 44); with the noise (18, 21, 27, 46)
    let zero = scheme.enc_from(&pk, 0, &s, &e).unwrap();
    assert_eq!(vec![vec![18, 21, 27, 46]], zero.representatives().to_rows());
    // 46 + floor(101 / 2) = 96
    let one = scheme.enc_from(&pk, 1, &s, &e).unwrap();
    assert_eq!(vec![vec![18, 21, 27, 96]], one.representatives().to_rows());
    // odd messages stand for one, even messages for zero
    assert!(scheme.enc_from(&pk, -3, &s, &e).unwrap().equals(&one));
    assert!(scheme.enc_from(&pk, 8, &s, &e).unwrap().equals(&zero));
    // 46 - 18 - 27 = 1 is near zero, 96 - 45 = 51 is near 50
    assert_eq!(Ok(0), scheme.dec(&x, &zero));
    assert_eq!(Ok(1), scheme.dec(&x, &one));

    let short = MatZ::from_rows(vec![vec![1], vec![0]]).unwrap();
    assert_eq!(Err(MathError::MismatchingMatrixDimension), scheme.dec(&short, &zero));
    let other =
        MatZq::from_mat_z(&MatZ::from_rows(vec![vec![18, 21, 27, 46]]).unwrap(), 103).unwrap();
    assert_eq!(Err(MathError::MismatchingModulus), scheme.dec(&x, &other));
    assert!(matches!(
        scheme.enc_from(&pk, 0, &s, &short),
        Err(MathError::MismatchingMatrixDimension)
    ));
    assert!(matches!(
        DualRegev::new(0, 3, 101, alpha),
        Err(ParameterError::SecurityParameterTooSmall)
    ));
    assert!(matches!(DualRegev::new(2, 3, 1, alpha), Err(ParameterError::InvalidModulus)));
    assert!(matches!(DualRegev::new(2, 0, 101, alpha), Err(ParameterError::TooLarge)));
}

/// Decoding at the borders: a residue decodes to one where it is nearer to
/// `floor(q / 2)` than to zero.
#[test]
fn decoding_at_the_borders() {
    let scheme = DualRegev::new(1, 1, 100, Fraction::new(0, 1).unwrap()).unwrap();
    let x = MatZ::from_rows(vec![vec![0]]).unwrap();
    let decode = |value: i64| {
        let cipher =
            MatZq::from_mat_z(&MatZ::from_rows(vec![vec![0, value]]).unwrap(), 100).unwrap();
        scheme.dec(&x, &cipher).unwrap()
    };
    assert_eq!(0, decode(0));
    assert_eq!(0, decode(25));
    assert_eq!(1, decode(26));
    assert_eq!(1, decode(50));
    assert_eq!(1, decode(74));
    assert_eq!(0, decode(75));
    assert_eq!(0, decode(99));
}

/// The encryption from an identity based encryption and a signature scheme
/// decrypts what it encrypted, and answers a forged ciphertext with -1.
#[test]
fn ccs_cycle_and_forgery() {
    let ibe = DualRegevIBE::new_default(TestBackend::new(61)).unwrap();
    let signature =
        Fdh::init_gpv(4, 113, Rational::from_integer(1000), TestBackend::new(62)).unwrap();
    let mut scheme = CCSfromIBE { ibe, signature };

    let (pk, sk) = scheme.gen();
    for bit in [0, 1, 1, 0] {
        let cipher = scheme.enc(&pk, bit).unwrap();
        assert_eq!(Ok(bit), scheme.dec(&sk, &cipher));
    }

    let (vk_1, c_1, sigma_1) = scheme.enc(&pk, 1).unwrap();
    let (vk_2, c_2, sigma_2) = scheme.enc(&pk, 1).unwrap();
    // a ciphertext under another signature, and under another key
    assert_eq!(Ok(-1), scheme.dec(&sk, &(vk_1.clone(), c_2.clone(), sigma_1.clone())));
    assert_eq!(Ok(-1), scheme.dec(&sk, &(vk_1.clone(), c_1.clone(), sigma_2.clone())));
    assert_eq!(Ok(-1), scheme.dec(&sk, &(vk_2, c_1.clone(), sigma_1.clone())));
    assert_eq!(Ok(1), scheme.dec(&sk, &(vk_1, c_1, sigma_1)));
}

/// A storage made from the entries of a storage holds the same answers.
#[test]
fn storage_round_trip() {
    let s = Rational::from_integer(1000);
    let mut fdh = Fdh::init_gpv(4, 113, s, TestBackend::new(71)).unwrap();
    let (pk, sk) = fdh.gen();
    for m in ["a", "b", "c"] {
        fdh.sign(m.to_owned(), &sk, &pk).unwrap();
    }
    let entries = fdh.storage.entries();
    assert_eq!(3, entries.len());
    let reloaded: Storage<(String, MatZq), MatZ> = Storage::from_entries(entries).unwrap();
    assert_eq!(3, reloaded.len());
    for m in ["a", "b", "c"] {
        let request = (m.to_owned(), pk.copy());
        let kept = fdh.storage.get(&request).unwrap();
        assert!(reloaded.get(&request).unwrap().equals(kept));
        assert!(fdh.vfy(m.to_owned(), kept, &pk));
    }
    let twice = vec![
        ("a".to_owned(), MatZ::identity(1)),
        ("b".to_owned(), MatZ::identity(1)),
        ("a".to_owned(), MatZ::identity(2)),
    ];
    assert!(Storage::from_entries(twice).is_none());
    let twice = vec![
        (("a".to_owned(), pk.copy()), MatZ::identity(1)),
        (("a".to_owned(), pk.copy()), MatZ::identity(2)),
    ];
    assert!(Storage::from_entries(twice).is_none());
}

/// A backend whose lattice points are no lattice points, whose primes are out
/// of range and whose square roots are zero.
struct Unfaithful {
    inner: TestBackend,
    far: bool,
}

impl Backend for Unfaithful {
    fn uniform(&self, bound: u64) -> u64 {
        self.inner.uniform(bound)
    }

    fn prime(&self, _lower: u64, upper: u64) -> u64 {
        upper + 1
    }

    fn lattice_point(&self, basis: &MatZ, n: usize, center: &MatZ, s: &Rational) -> MatZ {
        if self.far {
            // a point of the lattice, but far from the center
            let rows: Vec<Vec<i64>> =
                basis.to_rows().iter().map(|row| vec![row[0] * 1_000_000]).collect();
            MatZ::from_rows(rows).unwrap()
        } else {
            // the nearest point, moved off the lattice
            let mut rows = self.inner.lattice_point(basis, n, center, s).to_rows();
            let last = rows.len() - 1;
            rows[last][0] += 1;
            MatZ::from_rows(rows).unwrap()
        }
    }

    fn gaussian(&self, n: usize, width: &Fraction, scale: u64) -> i64 {
        self.inner.gaussian(n, width, scale)
    }

    fn sqrt(&self, _x: u64) -> Rational {
        Rational::from_integer(0)
    }

    fn log2(&self, x: u64) -> Rational {
        self.inner.log2(x)
    }
}

/// What an unfaithful backend returns is rejected, not used.
#[test]
fn unfaithful_backends_are_caught() {
    let off = Unfaithful { inner: TestBackend::new(81), far: false };
    let gp = GadgetParameters::init_default(3, 64).unwrap();
    let psf = PSFGPV { gp, s: Rational::from_integer(100), backend: off };
    let (a, trapdoor) = psf.trap_gen();
    let u = MatZq::from_mat_z(&MatZ::from_rows(vec![vec![5], vec![63], vec![0]]).unwrap(), 64)
        .unwrap();
    assert_eq!(Err(MathError::RejectedSample), psf.samp_p(&a, &trapdoor, &u).map(|_| ()));
    let wrong = MatZq::from_mat_z(&MatZ::from_rows(vec![vec![5], vec![63]]).unwrap(), 64).unwrap();
    assert_eq!(
        Err(MathError::MismatchingMatrixDimension),
        psf.samp_p(&a, &trapdoor, &wrong).map(|_| ())
    );
    let other =
        MatZq::from_mat_z(&MatZ::from_rows(vec![vec![5], vec![63], vec![0]]).unwrap(), 65).unwrap();
    assert_eq!(Err(MathError::MismatchingModulus), psf.samp_p(&a, &trapdoor, &other).map(|_| ()));

    // a far point of the lattice gives a preimage, but none in the domain
    let far = Unfaithful { inner: TestBackend::new(82), far: true };
    let psf = PSFGPV { gp, s: Rational::from_integer(100), backend: far };
    let (a, trapdoor) = psf.trap_gen();
    let sol = particular_solution(&gp, &trapdoor.0, &u).unwrap();
    let point = psf.backend.lattice_point(&trapdoor.1, 3, &sol.neg().unwrap(), &psf.s);
    let sigma = preimage_from(&a, &u, &sol, &point).unwrap();
    assert!(psf.f_a(&a, &sigma).unwrap().equals(&u));
    assert!(!psf.check_domain(&sigma));
    assert_eq!(Err(MathError::RejectedSample), psf.samp_p(&a, &trapdoor, &u).map(|_| ()));
    assert_eq!(Err(MathError::RejectedSample), psf.samp_d().map(|_| ()));

    let primes = Unfaithful { inner: TestBackend::new(83), far: false };
    assert!(matches!(DualRegevIBE::new_from_n(4, primes), Err(ParameterError::InvalidModulus)));
}

/// The backend of the tests samples inside the domain.
#[test]
fn samples_of_the_domain() {
    let gp = GadgetParameters::init_default(3, 64).unwrap();
    let psf = PSFGPV { gp, s: Rational::from_integer(100), backend: TestBackend::new(84) };
    let sigma = psf.samp_d().unwrap();
    assert_eq!(gp.m(), sigma.num_rows());
    assert!(psf.check_domain(&sigma));
    // |sigma|^2 <= s^2 * m = 4 * 40 for s = 2 and m = 40
    let psf = PSFGPV { gp, s: Rational::from_integer(2), backend: TestBackend::new(84) };
    assert_eq!(40, gp.m());
    let mut rows = vec![vec![0]; 40];
    rows[0][0] = 12;
    rows[1][0] = -4;
    assert!(psf.check_domain(&MatZ::from_rows(rows.clone()).unwrap()));
    rows[39][0] = 1;
    assert!(!psf.check_domain(&MatZ::from_rows(rows).unwrap()));
    assert!(!psf.check_domain(&MatZ::zero(39, 1)));
    assert!(!psf.check_domain(&MatZ::zero(40, 2)));
    assert!(psf.f_a(&MatZq::identity(2, 64), &MatZ::zero(40, 1)).is_none());
    // a width that is no whole number: |sigma|^2 <= (3/2)^2 * 40 = 90
    let psf = PSFGPV { gp, s: Rational::new(3, 2).unwrap(), backend: TestBackend::new(84) };
    let mut rows = vec![vec![0]; 40];
    rows[0][0] = 9;
    rows[1][0] = 3;
    assert!(psf.check_domain(&MatZ::from_rows(rows.clone()).unwrap()));
    rows[2][0] = 1;
    assert!(!psf.check_domain(&MatZ::from_rows(rows).unwrap()));
}

/// A zero square root is no width at least the square root of `m`.
#[test]
fn zero_roots_are_below_the_square_root() {
    struct Rootless(TestBackend);
    impl Backend for Rootless {
        fn uniform(&self, bound: u64) -> u64 {
            self.0.uniform(bound)
        }
        fn prime(&self, lower: u64, upper: u64) -> u64 {
            self.0.prime(lower, upper)
        }
        fn lattice_point(&self, basis: &MatZ, n: usize, center: &MatZ, s: &Rational) -> MatZ {
            self.0.lattice_point(basis, n, center, s)
        }
        fn gaussian(&self, n: usize, width: &Fraction, scale: u64) -> i64 {
            self.0.gaussian(n, width, scale)
        }
        fn sqrt(&self, _x: u64) -> Rational {
            Rational::from_integer(0)
        }
        fn log2(&self, x: u64) -> Rational {
            self.0.log2(x)
        }
    }
    assert!(matches!(
        DualRegevIBE::new_from_n(4, Rootless(TestBackend::new(85))),
        Err(ParameterError::WidthBelowSqrtM)
    ));
}

/// What comes of the values that the backend gives, requirement by requirement.
#[test]
fn parameters_from_given_values() {
    let r = Rational::new(10771, 1000).unwrap();
    let t = Rational::new(10817, 1000).unwrap();
    let l = Rational::from_integer(2);
    let zero = Rational::from_integer(0);
    let build = |n: usize, q: u64, r: Rational, t: Rational, l: Rational| {
        DualRegevIBE::new_from_values(n, q, r, &t, &l, TestBackend::new(91))
    };
    let ibe = build(4, 8209, r, t, l).unwrap();
    assert_eq!(4, ibe.dual_regev.n());
    assert_eq!(8209, ibe.dual_regev.q());
    assert_eq!(116, ibe.dual_regev.m());
    assert_eq!(116, ibe.psf.gp.m());
    assert_eq!(10771, ibe.psf.s.num());
    assert_eq!(1000, ibe.psf.s.den());
    assert_eq!(0, ibe.storage.len());
    // (1000 * 1000 * 1) / (2 * (10771 * 10817 * 2)), exactly
    assert_eq!(1_000_000, ibe.dual_regev.alpha().num());
    assert_eq!(2 * (10771 * 10817 * 2), ibe.dual_regev.alpha().den());
    assert_eq!(Ok(()), ibe.check_correctness_from(&t, &l));
    assert_eq!(Ok(()), ibe.check_security());

    assert!(matches!(build(1, 8209, r, t, l), Err(ParameterError::SecurityParameterBelowTwo)));
    assert!(matches!(build(1 << 13, 8209, r, t, l), Err(ParameterError::TooLarge)));
    assert!(matches!(build(4, 8191, r, t, l), Err(ParameterError::InvalidModulus)));
    assert!(matches!(build(4, 16385, r, t, l), Err(ParameterError::InvalidModulus)));
    assert!(build(4, 8192, r, t, l).is_ok());
    assert!(build(4, 16384, r, t, l).is_ok());
    // the width against the square root of m = 116, exactly
    let below = Rational::new(10770, 1000).unwrap();
    assert!(matches!(build(4, 8209, below, t, l), Err(ParameterError::WidthBelowSqrtM)));
    // and against one above it: 10.770^2 <= 116 < 10.771^2
    let near = Rational::new(11770, 1000).unwrap();
    assert_eq!(11770, build(4, 8209, near, t, l).unwrap().psf.s.num());
    let far = Rational::new(11771, 1000).unwrap();
    assert!(matches!(build(4, 8209, far, t, l), Err(ParameterError::WidthAboveSqrtM)));
    assert!(build(4, 8209, Rational::from_integer(11), t, l).is_ok());
    assert!(matches!(
        build(4, 8209, Rational::from_integer(12), t, l),
        Err(ParameterError::WidthAboveSqrtM)
    ));
    assert!(matches!(build(4, 8209, zero, t, l), Err(ParameterError::WidthBelowSqrtM)));
    assert!(matches!(build(4, 8209, r, zero, l), Err(ParameterError::NoiseAboveCorrectnessBound)));
    assert!(matches!(build(4, 8209, r, t, zero), Err(ParameterError::NoiseAboveCorrectnessBound)));
    // the root of m + 1 = 117, exactly: 10.816^2 < 117 <= 10.817^2 and
    // 10.816^2 <= 117 < 10.817^2 for one above
    let short = Rational::new(10816, 1000).unwrap();
    assert!(matches!(
        build(4, 8209, r, short, l),
        Err(ParameterError::NoiseAboveCorrectnessBound)
    ));
    let near = Rational::new(11816, 1000).unwrap();
    assert!(build(4, 8209, r, near, l).is_ok());
    let far = Rational::new(11817, 1000).unwrap();
    assert!(matches!(build(4, 8209, r, far, l), Err(ParameterError::RejectedSample)));
    // the logarithm of 4 is 2, rounded down and rounded up
    let less = Rational::new(1999, 1000).unwrap();
    assert!(matches!(build(4, 8209, r, t, less), Err(ParameterError::NoiseAboveCorrectnessBound)));
    let more = Rational::new(2001, 1000).unwrap();
    assert!(matches!(build(4, 8209, r, t, more), Err(ParameterError::RejectedSample)));
    assert!(build(4, 8209, r, t, Rational::new(2000, 1000).unwrap()).is_ok());
    // the logarithm of 5 lies between 2 and 3; m = 139 for thirteen digits
    let twelve = Rational::from_integer(12);
    for (num, fits) in [(19, false), (20, true), (23, true), (30, true), (31, false)] {
        let l = Rational::new(num, 10).unwrap();
        let out = build(5, 7817, twelve, twelve, l);
        assert_eq!(fits, out.is_ok());
        if let Ok(ibe) = out {
            assert_eq!(139, ibe.dual_regev.m());
            // 1 / (2 * 12 * 12 * l), with the parts multiplied as they are
            assert_eq!(10, ibe.dual_regev.alpha().num());
            assert_eq!(2 * (12 * 12 * num as u128), ibe.dual_regev.alpha().den());
            assert_eq!(Ok(()), ibe.check_correctness_from(&twelve, &l));
        }
    }
    assert!(matches!(
        build(5, 7817, twelve, twelve, Rational::new(19, 10).unwrap()),
        Err(ParameterError::NoiseAboveCorrectnessBound)
    ));
    assert!(matches!(
        build(5, 7817, twelve, twelve, Rational::new(31, 10).unwrap()),
        Err(ParameterError::RejectedSample)
    ));
    // an out of range modulus is reported before anything else
    assert!(matches!(build(4, 0, zero, zero, zero), Err(ParameterError::InvalidModulus)));
}

/// The keys that the signature scheme generates are key pairs of its function.
#[test]
fn generated_keys_are_key_pairs() {
    let s = Rational::from_integer(1000);
    let mut fdh = Fdh::init_gpv(3, 64, s, TestBackend::new(92)).unwrap();
    let (pk, (r, basis)) = fdh.gen();
    let gp = fdh.psf.gp;
    assert_eq!(3, pk.num_rows());
    assert_eq!(gp.m(), pk.num_cols());
    assert_eq!(64, pk.modulus());
    assert_eq!(gp.m_bar(), r.num_rows());
    assert_eq!(gp.w(), r.num_cols());
    for row in r.to_rows() {
        for x in row {
            assert!((-1..=1).contains(&x));
        }
    }
    assert_eq!(0, fdh.storage.len());
    // the public matrix times the trapdoor stacked on the identity is the gadget
    let trapdoor = r.concat_vertical(&MatZ::identity(gp.w())).unwrap();
    let gadget = qfall_crypto::sample::g_trapdoor::gadget_classical::gen_gadget_mat(3, 6, 2)
        .unwrap();
    assert!(pk.mul_mat_z(&trapdoor).unwrap().representatives().equals(&gadget));
    // the short basis is sent to zero
    let zero = MatZq::from_mat_z(&MatZ::zero(3, gp.m()), 64).unwrap();
    assert!(pk.mul_mat_z(&basis).unwrap().equals(&zero));
}

/// The parts of a ciphertext of the encryption from an identity based
/// encryption: a signature on the inner ciphertext under the key in it.
#[test]
fn ccs_ciphertexts_by_their_parts() {
    let ibe = DualRegevIBE::new_default(TestBackend::new(93)).unwrap();
    let signature =
        Fdh::init_gpv(4, 113, Rational::from_integer(1000), TestBackend::new(94)).unwrap();
    let mut scheme = CCSfromIBE { ibe, signature };
    let (pk, _sk) = scheme.gen();
    let (vk, c, sigma) = scheme.enc(&pk, 1).unwrap();
    assert_eq!(1, c.num_rows());
    assert_eq!(scheme.ibe.dual_regev.m() + 1, c.num_cols());
    assert_eq!(scheme.ibe.dual_regev.q(), c.modulus());
    // the signature is kept for the text of the inner ciphertext, and is a
    // preimage of its digest under the key
    let text = c.encode();
    assert!(scheme.signature.storage.get(&(text.clone(), vk.copy())).unwrap().equals(&sigma));
    let digest = scheme.signature.hash.hash(&text);
    assert!(scheme.signature.psf.f_a(&vk, &sigma).unwrap().equals(&digest));
    assert!(scheme.signature.vfy(text, &sigma, &vk));
}

/// Signatures are kept by message and public key: the same message under
/// another key pair gets a signature of its own, which that key accepts.
#[test]
fn signatures_are_kept_by_message_and_key() {
    let s = Rational::from_integer(250);
    let mut fdh = Fdh::init_gpv(8, 113, s, TestBackend::new(95)).unwrap();
    let m = "Hello World!";
    let (pk_1, sk_1) = fdh.gen();
    let (pk_2, sk_2) = fdh.gen();
    assert!(!pk_1.equals(&pk_2));

    let sigma_1 = fdh.sign(m.to_owned(), &sk_1, &pk_1).unwrap();
    let sigma_2 = fdh.sign(m.to_owned(), &sk_2, &pk_2).unwrap();
    assert!(!sigma_1.equals(&sigma_2));
    assert_eq!(2, fdh.storage.len());

    let digest = fdh.hash.hash(m);
    assert!(fdh.psf.f_a(&pk_1, &sigma_1).unwrap().equals(&digest));
    assert!(fdh.psf.f_a(&pk_2, &sigma_2).unwrap().equals(&digest));
    assert!(fdh.psf.check_domain(&sigma_1));
    assert!(fdh.psf.check_domain(&sigma_2));
    assert!(fdh.vfy(m.to_owned(), &sigma_1, &pk_1));
    assert!(fdh.vfy(m.to_owned(), &sigma_2, &pk_2));
    assert!(!fdh.vfy(m.to_owned(), &sigma_1, &pk_2));

    // each request keeps its answer
    assert!(fdh.sign(m.to_owned(), &sk_1, &pk_1).unwrap().equals(&sigma_1));
    assert!(fdh.sign(m.to_owned(), &sk_2, &pk_2).unwrap().equals(&sigma_2));
    assert_eq!(2, fdh.storage.len());
}

/// The checks decide without the backend wherever the root and the logarithm
/// rounded up, or rounded down, decide.
#[test]
fn checks_decide_exactly_where_they_can() {
    let eleven = Rational::from_integer(11);
    let nothing = Rational::from_integer(0);
    let much = Rational::from_integer(1000);
    // m + 1 = 117 has the root between 10 and 11, and n = 4 the logarithm 2:
    // alpha <= 1 / (2 * 11 * 11 * 2) = 1 / 484 is correct, whatever is given
    let at = Fraction::new(1, 484).unwrap();
    let ibe = DualRegevIBE::new(4, 8209, eleven, at, TestBackend::new(96)).unwrap();
    assert_eq!(Ok(()), ibe.check_correctness_from(&much, &much));
    // alpha > 1 / (2 * 11 * 10 * 2) = 1 / 440 is not, whatever is given
    let beyond = Fraction::new(1, 439).unwrap();
    let ibe = DualRegevIBE::new(4, 8209, eleven, beyond, TestBackend::new(96)).unwrap();
    assert_eq!(
        Err(ParameterError::NoiseAboveCorrectnessBound),
        ibe.check_correctness_from(&nothing, &nothing)
    );
    // between the two, what is given decides
    let between = Fraction::new(1, 460).unwrap();
    let ibe = DualRegevIBE::new(4, 8209, eleven, between, TestBackend::new(96)).unwrap();
    assert_eq!(
        Ok(()),
        ibe.check_correctness_from(&Rational::from_integer(10), &Rational::from_integer(2))
    );
    assert_eq!(
        Err(ParameterError::NoiseAboveCorrectnessBound),
        ibe.check_correctness_from(&eleven, &Rational::from_integer(2))
    );
}

/// A backend whose noise always lies `beyond` past six widths, on the side
/// that `sign` names.
struct Offset {
    inner: TestBackend,
    beyond: i64,
    sign: i64,
}

impl Backend for Offset {
    fn uniform(&self, bound: u64) -> u64 {
        self.inner.uniform(bound)
    }

    fn prime(&self, lower: u64, upper: u64) -> u64 {
        self.inner.prime(lower, upper)
    }

    fn lattice_point(&self, basis: &MatZ, n: usize, center: &MatZ, s: &Rational) -> MatZ {
        self.inner.lattice_point(basis, n, center, s)
    }

    fn gaussian(&self, _n: usize, width: &Fraction, scale: u64) -> i64 {
        let six_widths = 6 * scale as u128 * width.num() / width.den();
        self.sign * (six_widths as i64 + self.beyond)
    }

    fn sqrt(&self, x: u64) -> Rational {
        self.inner.sqrt(x)
    }

    fn log2(&self, x: u64) -> Rational {
        self.inner.log2(x)
    }
}

/// The encryption keeps noise of up to six widths and rejects noise beyond,
/// after it has looked at the key.
#[test]
fn dual_regev_rejects_noise_beyond_six_widths() {
    // six widths: floor(6 * 101 / 100) = 6
    let alpha = Fraction::new(1, 100).unwrap();
    let scheme = DualRegev::new(2, 3, 101, alpha).unwrap();
    let x = MatZ::from_rows(vec![vec![1], vec![0], vec![1]]).unwrap();
    let pk = MatZq::from_mat_z(
        &MatZ::from_rows(vec![vec![1, 2, 3, 4], vec![5, 6, 7, 12]]).unwrap(),
        101,
    )
    .unwrap();
    for sign in [1, -1] {
        let at = Offset { inner: TestBackend::new(101), beyond: 0, sign };
        for bit in [0, 1] {
            // the noise (6, 6, 6, 6) leaves 6 - 6 - 6 = -6 beside the message
            let cipher = scheme.enc(&pk, bit, &at).unwrap();
            assert_eq!(Ok(bit), scheme.dec(&x, &cipher));
        }
        let past = Offset { inner: TestBackend::new(101), beyond: 1, sign };
        assert_eq!(Err(MathError::RejectedSample), scheme.enc(&pk, 0, &past).map(|_| ()));

        // the key is looked at first
        let other = MatZq::from_mat_z(&pk.representatives(), 103).unwrap();
        assert_eq!(Err(MathError::MismatchingModulus), scheme.enc(&other, 0, &past).map(|_| ()));
        let narrow = MatZq::from_mat_z(&MatZ::identity(2), 101).unwrap();
        assert_eq!(
            Err(MathError::MismatchingMatrixDimension),
            scheme.enc(&narrow, 0, &past).map(|_| ())
        );
    }
    // no noise at all where the rate is zero
    let still = DualRegev::new(2, 3, 101, Fraction::new(0, 1).unwrap()).unwrap();
    let at = Offset { inner: TestBackend::new(102), beyond: 0, sign: 1 };
    assert_eq!(Ok(1), scheme.dec(&x, &still.enc(&pk, 1, &at).unwrap()));
    let past = Offset { inner: TestBackend::new(102), beyond: 1, sign: 1 };
    assert!(matches!(still.enc(&pk, 1, &past), Err(MathError::RejectedSample)));
}

/// The identity based encryption rejects noise beyond six widths as well.
#[test]
fn identity_based_encryption_rejects_noise_beyond_six_widths() {
    let eleven = Rational::from_integer(11);
    // six widths: floor(6 * 8209 / 484) = 101
    let rate = Fraction::new(1, 484).unwrap();
    let id = String::from("Hello World!");
    let at = Offset { inner: TestBackend::new(103), beyond: 0, sign: -1 };
    let ibe = DualRegevIBE::new(4, 8209, eleven, rate, at).unwrap();
    let (pk, _sk) = ibe.setup();
    let cipher = ibe.enc(&pk, &id, 1).unwrap();
    assert_eq!(1, cipher.num_rows());
    assert_eq!(ibe.dual_regev.m() + 1, cipher.num_cols());

    let past = Offset { inner: TestBackend::new(103), beyond: 1, sign: -1 };
    let ibe = DualRegevIBE::new(4, 8209, eleven, rate, past).unwrap();
    assert!(matches!(ibe.enc(&pk, &id, 1), Err(MathError::RejectedSample)));
    let other = MatZq::from_mat_z(&pk.representatives(), 8219).unwrap();
    assert!(matches!(ibe.enc(&other, &id, 1), Err(MathError::MismatchingModulus)));
    let narrow = MatZq::from_mat_z(&MatZ::identity(4), 8209).unwrap();
    assert!(matches!(ibe.enc(&narrow, &id, 1), Err(MathError::MismatchingMatrixDimension)));

    // and so does the encryption that is built from it
    let signature =
        Fdh::init_gpv(4, 113, Rational::from_integer(1000), TestBackend::new(104)).unwrap();
    let mut scheme = CCSfromIBE { ibe, signature };
    assert!(matches!(scheme.enc(&pk, 1), Err(MathError::RejectedSample)));
}

/// With the root 11 and the logarithm 2 the noise rate for `n = 4` is
/// `1 / (2 * 11 * 11 * 2)`, which is the largest rate that is correct.
#[test]
fn derived_noise_rate_is_the_bound() {
    let eleven = Rational::from_integer(11);
    let two = Rational::from_integer(2);
    let ibe =
        DualRegevIBE::new_from_values(4, 8209, eleven, &eleven, &two, TestBackend::new(105))
            .unwrap();
    assert_eq!(1, ibe.dual_regev.alpha().num());
    assert_eq!(484, ibe.dual_regev.alpha().den());
    assert_eq!(Ok(()), ibe.check_correctness_from(&eleven, &two));
    assert_eq!(Ok(()), ibe.check_correctness());
    assert_eq!(Ok(()), ibe.check_security());

    // the rate that the backend's values give is correct for these values
    let ibe = DualRegevIBE::new_from_n(4, TestBackend::new(106)).unwrap();
    let m = ibe.dual_regev.m() as u64;
    let backend = TestBackend::new(107);
    assert_eq!(Ok(()), ibe.check_correctness_from(&backend.sqrt(m + 1), &backend.log2(4)));
    // the width is at least the square root of m
    let (num, den) = (ibe.psf.s.num() as u64, ibe.psf.s.den() as u64);
    assert!(num * num >= m * den * den);
    assert_eq!(Ok(()), ibe.check_security());
}

/// After an encryption the signature scheme accepts the signature in the
/// ciphertext, and the decryption gives the message back.
#[test]
fn ccs_signatures_are_accepted_afterwards() {
    let ibe = DualRegevIBE::new_default(TestBackend::new(108)).unwrap();
    let signature =
        Fdh::init_gpv(4, 113, Rational::from_integer(1000), TestBackend::new(109)).unwrap();
    let mut scheme = CCSfromIBE { ibe, signature };
    let (pk, sk) = scheme.gen();
    let mut ciphers = Vec::new();
    for bit in [1, 0, 1] {
        let (vk, c, sigma) = scheme.enc(&pk, bit).unwrap();
        assert!(scheme.signature.vfy(c.encode(), &sigma, &vk));
        ciphers.push((bit, (vk, c, sigma)));
    }
    // also after later encryptions
    for (bit, cipher) in ciphers.iter() {
        assert!(scheme.signature.vfy(cipher.1.encode(), &cipher.2, &cipher.0));
        assert_eq!(Ok(*bit), scheme.dec(&sk, cipher));
    }
}

/// A backend whose roots and logarithms are what `TestBackend` gives, plus
/// what it is told to add.
struct Skewed {
    inner: TestBackend,
    root: Cell<u32>,
    logarithm: Cell<u32>,
}

impl Backend for Skewed {
    fn uniform(&self, bound: u64) -> u64 {
        self.inner.uniform(bound)
    }

    fn prime(&self, lower: u64, upper: u64) -> u64 {
        self.inner.prime(lower, upper)
    }

    fn lattice_point(&self, basis: &MatZ, n: usize, center: &MatZ, s: &Rational) -> MatZ {
        self.inner.lattice_point(basis, n, center, s)
    }

    fn gaussian(&self, n: usize, width: &Fraction, scale: u64) -> i64 {
        self.inner.gaussian(n, width, scale)
    }

    fn sqrt(&self, x: u64) -> Rational {
        let root = self.inner.sqrt(x);
        Rational::new(root.num() + self.root.get() * root.den(), root.den()).unwrap()
    }

    fn log2(&self, x: u64) -> Rational {
        let logarithm = self.inner.log2(x);
        let num = logarithm.num() + self.logarithm.get() * logarithm.den();
        Rational::new(num, logarithm.den()).unwrap()
    }
}

/// The default parameters pass the check of security, whatever the backend
/// answers when it is asked for the logarithm, and a root that is too large is
/// no width.
#[test]
fn default_parameters_are_secure() {
    for seed in 110..130 {
        let backend =
            Skewed { inner: TestBackend::new(seed), root: Cell::new(0), logarithm: Cell::new(0) };
        let ibe = DualRegevIBE::new_default(backend).unwrap();
        let (q, m) = (ibe.dual_regev.q(), ibe.dual_regev.m() as u64);
        assert!((8192..=16384).contains(&q));
        assert_eq!(116, m);
        let (num, den) = (ibe.psf.s.num() as u64, ibe.psf.s.den() as u64);
        assert!(num * num >= m * den * den);
        assert!((num - den) * (num - den) <= m * den * den);
        assert_eq!(Ok(()), ibe.check_security());
        ibe.psf.backend.logarithm.set(1000);
        assert_eq!(Ok(()), ibe.check_security());
        assert_eq!(Ok(()), ibe.check_security_from(&Rational::from_integer(0)));
    }
    let backend =
        Skewed { inner: TestBackend::new(131), root: Cell::new(2), logarithm: Cell::new(0) };
    assert!(matches!(DualRegevIBE::new_default(backend), Err(ParameterError::WidthAboveSqrtM)));
    let backend =
        Skewed { inner: TestBackend::new(131), root: Cell::new(2), logarithm: Cell::new(0) };
    assert!(matches!(
        DualRegevIBE::new_from_n(5, backend),
        Err(ParameterError::WidthAboveSqrtM)
    ));
    // and a logarithm that is too large is no logarithm
    for n in [2, 4, 5] {
        let backend =
            Skewed { inner: TestBackend::new(132), root: Cell::new(0), logarithm: Cell::new(1) };
        assert!(matches!(
            DualRegevIBE::new_from_n(n, backend),
            Err(ParameterError::RejectedSample)
        ));
    }
}

/// Where `m + 1` times the bound of the noise times the size of the key is
/// less than a quarter of the modulus, every ciphertext decrypts, also with
/// the noise at its bound.
#[test]
fn bounded_noise_decrypts_for_every_identity() {
    let eleven = Rational::from_integer(11);
    // six widths: floor(6 * 8209 / 49254) = 1
    let rate = Fraction::new(1, 6 * 8209).unwrap();
    for (seed, sign) in [(140, 1), (141, -1), (142, 1), (143, -1)] {
        let at = Offset { inner: TestBackend::new(seed), beyond: 0, sign };
        let mut ibe = DualRegevIBE::new(4, 8209, eleven, rate, at).unwrap();
        let (pk, sk) = ibe.setup();
        for id in ["Hello World!", "", "another identity"] {
            let id = String::from(id);
            let key = ibe.extract(&pk, &sk, &id).unwrap();
            let size = key.to_rows().iter().map(|row| row[0].abs()).max().unwrap();
            assert!(2 * (117 * size) < 8209 / 2);
            for bit in [0, 1] {
                let cipher = ibe.enc(&pk, &id, bit).unwrap();
                assert_eq!(Ok(bit), ibe.dec(&key, &cipher));
            }
        }
    }
}
