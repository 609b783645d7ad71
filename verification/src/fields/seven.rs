//! The field with seven elements.

use crate::element::Element;
use crate::random::random_below;
use rand::rngs::StdRng;
use vstd::arithmetic::power2::lemma2_to64;
use vstd::prelude::*;

verus! {

const F: u128 = 7;

/// An integer modulo seven.
#[derive(Debug, Clone, Copy, Default, PartialEq, Eq)]
pub struct SevenScalar {
    pub(crate) val: u8,
}

impl SevenScalar {
    /// The constants of the ring, by value.
    pub proof fn lemma_constants()
        ensures
            Self::CARDINALITY == 7,
            Self::BIT_WIDTH == 3,
    {
    }
}

impl Element for SevenScalar {
    const CARDINALITY: u128 = 7;

    const BIT_WIDTH: usize = 3;

    closed spec fn value(&self) -> nat {
        self.val as nat
    }

    proof fn lemma_value_determines(a: Self, b: Self) {
    }

    proof fn lemma_parameters() {
        assert(Self::CARDINALITY == 7);
        assert(Self::BIT_WIDTH == 3);
        lemma2_to64();
    }

    fn from_u128(v: u128) -> (r: Self) {
        assert(Self::CARDINALITY == 7);
        Self { val: (v % F) as u8 }
    }

    fn to_u128(self) -> (v: u128) {
        self.val as u128
    }

    fn is_zero(&self) -> (b: bool) {
        self.val == 0
    }

    fn add(self, rhs: Self) -> (r: Self) {
        assert(Self::CARDINALITY == 7);
        Self { val: ((self.val as u128 + rhs.val as u128) % F) as u8 }
    }

    fn sub(self, rhs: Self) -> (r: Self) {
        assert(Self::CARDINALITY == 7);
        Self { val: ((self.val as u128 + F - rhs.val as u128) % F) as u8 }
    }

    fn mul(self, rhs: Self) -> (r: Self) {
        assert(Self::CARDINALITY == 7);
        assert(self.val * rhs.val <= 36) by (nonlinear_arith)
            requires
                self.val < 7,
                rhs.val < 7,
        ;
        Self { val: ((self.val as u128 * rhs.val as u128) % F) as u8 }
    }

    fn sample_rand(rng: &mut StdRng) -> (r: Self) {
        assert(Self::CARDINALITY == 7);
        Self::from_u128(random_below(rng, 7) as u128)
    }
}

} // verus!
