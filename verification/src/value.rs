//! Values that can be compared and copied with a known result.

use crate::math::mat_z::MatZ;
use crate::math::mat_zq::MatZq;
use vstd::prelude::*;

verus! {

/// A value with a mathematical model, an equality test that decides equality of
/// models, and a copy that keeps the model.
///
/// The generic schemes compare and copy keys, signatures and digests through
/// this trait, so that their contracts can say what came out.
pub trait Value: Sized {
    /// What a value stands for.
    type Model;

    /// The model of `self`.
    spec fn model(&self) -> Self::Model;

    /// Tells whether `self` and `other` stand for the same thing.
    fn equals(&self, other: &Self) -> (same: bool)
        ensures
            same <==> self.model() == other.model(),
    ;

    /// A copy of `self`.
    fn copy(&self) -> (out: Self)
        ensures
            out.model() == self.model(),
    ;
}

impl Value for MatZ {
    type Model = Seq<Seq<int>>;

    open spec fn model(&self) -> Seq<Seq<int>> {
        self@
    }

    fn equals(&self, other: &Self) -> (same: bool) {
        MatZ::equals(self, other)
    }

    fn copy(&self) -> (out: Self) {
        self.clone()
    }
}

impl Value for MatZq {
    type Model = (int, Seq<Seq<int>>);

    open spec fn model(&self) -> (int, Seq<Seq<int>>) {
        (self.q(), self@)
    }

    fn equals(&self, other: &Self) -> (same: bool) {
        MatZq::equals(self, other)
    }

    fn copy(&self) -> (out: Self) {
        self.clone()
    }
}

impl Value for String {
    type Model = Seq<char>;

    open spec fn model(&self) -> Seq<char> {
        self@
    }

    fn equals(&self, other: &Self) -> (same: bool) {
        *self == *other
    }

    fn copy(&self) -> (out: Self) {
        self.clone()
    }
}

impl<S: Value, T: Value> Value for (S, T) {
    type Model = (S::Model, T::Model);

    open spec fn model(&self) -> (S::Model, T::Model) {
        (self.0.model(), self.1.model())
    }

    fn equals(&self, other: &Self) -> (same: bool) {
        self.0.equals(&other.0) && self.1.equals(&other.1)
    }

    fn copy(&self) -> (out: Self) {
        (self.0.copy(), self.1.copy())
    }
}

/// A value that can be written down as a string.
pub trait Encode {
    /// The string that stands for `self`.
    spec fn text(&self) -> Seq<char>;

    /// Writes `self` down.
    fn encode(&self) -> (out: String)
        ensures
            out@ == self.text(),
    ;
}

impl Encode for String {
    open spec fn text(&self) -> Seq<char> {
        self@
    }

    fn encode(&self) -> (out: String) {
        self.clone()
    }
}

} // verus!
