//! Hash functions into the range of a preimage sampleable function.

use crate::construction::hash::sha256::{hash_to_mat_zq_sha256, matrix_of};
use crate::math::arith::{check_modulus, is_modulus};
use crate::math::mat_zq::MatZq;
use crate::value::Value;
use vstd::prelude::*;

pub mod sha256;

verus! {

/// A hash function from strings into `DigestSpace`.
pub trait HashInto<DigestSpace: Value> {
    /// The digest of the message `m`.
    spec fn digest(&self, m: Seq<char>) -> DigestSpace::Model;

    /// Hashes the message `m`. The same message always has the same digest.
    fn hash(&self, m: &str) -> (d: DigestSpace)
        ensures
            d.model() == self.digest(m@),
    ;
}

/// The hash function into the matrices of `rows` by `cols` residues modulo
/// `modulus` that SHA-256 gives.
#[derive(Clone, Copy, Debug)]
pub struct HashMatZq {
    modulus: u64,
    rows: usize,
    cols: usize,
}

impl HashMatZq {
    #[verifier::type_invariant]
    spec fn inv(self) -> bool {
        &&& is_modulus(self.modulus as int)
        &&& self.rows >= 1
        &&& self.cols >= 1
    }

    /// The modulus, the number of rows and the number of columns of the digests.
    pub closed spec fn shape(&self) -> (int, int, int) {
        (self.modulus as int, self.rows as int, self.cols as int)
    }

    /// The hash function into the matrices of `rows` by `cols` residues modulo
    /// `modulus`, or nothing where there are no such matrices.
    pub fn new(modulus: u64, rows: usize, cols: usize) -> (out: Option<HashMatZq>)
        ensures
            out is Some <==> is_modulus(modulus as int) && rows >= 1 && cols >= 1,
            out matches Some(h) ==> h.shape() == (modulus as int, rows as int, cols as int),
    {
        if check_modulus(modulus) && rows >= 1 && cols >= 1 {
            Some(HashMatZq { modulus, rows, cols })
        } else {
            None
        }
    }

    /// The modulus of the digests.
    pub fn modulus(&self) -> (q: u64)
        ensures
            q == self.shape().0,
            is_modulus(q as int),
    {
        proof {
            use_type_invariant(self);
        }
        self.modulus
    }

    /// The number of rows of the digests.
    pub fn rows(&self) -> (rows: usize)
        ensures
            rows == self.shape().1,
            rows >= 1,
    {
        proof {
            use_type_invariant(self);
        }
        self.rows
    }

    /// The number of columns of the digests.
    pub fn cols(&self) -> (cols: usize)
        ensures
            cols == self.shape().2,
            cols >= 1,
    {
        proof {
            use_type_invariant(self);
        }
        self.cols
    }
}

impl HashInto<MatZq> for HashMatZq {
    open spec fn digest(&self, m: Seq<char>) -> (int, Seq<Seq<int>>) {
        (self.shape().0, matrix_of(m, self.shape().1, self.shape().2, self.shape().0))
    }

    fn hash(&self, m: &str) -> (d: MatZq) {
        proof {
            use_type_invariant(self);
        }
        hash_to_mat_zq_sha256(m, self.rows, self.cols, self.modulus)
    }
}

} // verus!
