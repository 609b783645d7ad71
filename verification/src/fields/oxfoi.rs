//! The field of integers modulo the prime `2^64 - 2^32 + 1`, whose
//! hexadecimal digits read `0xfoi`: ffffffff00000001.

use crate::element::Element;
use crate::random::random_below;
use rand::rngs::StdRng;
use vstd::arithmetic::power2::{lemma2_to64, lemma2_to64_rest};
use vstd::prelude::*;

verus! {

const F: u128 = 0xffff_ffff_0000_0001;

/// An integer modulo `2^64 - 2^32 + 1`.
#[derive(Debug, Clone, Copy, Default, PartialEq, Eq)]
pub struct OxfoiScalar {
    pub(crate) val: u64,
}

impl OxfoiScalar {
    /// The constants of the ring, by value.
    pub proof fn lemma_constants()
        ensures
            Self::CARDINALITY == 0xffff_ffff_0000_0001,
            Self::BIT_WIDTH == 64,
    {
    }
}

impl Element for OxfoiScalar {
    const CARDINALITY: u128 = 0xffff_ffff_0000_0001;

    const BIT_WIDTH: usize = 64;

    closed spec fn value(&self) -> nat {
        self.val as nat
    }

    proof fn lemma_value_determines(a: Self, b: Self) {
    }

    proof fn lemma_parameters() {
        assert(Self::CARDINALITY == 0xffff_ffff_0000_0001);
        assert(Self::BIT_WIDTH == 64);
        lemma2_to64();
        lemma2_to64_rest();
    }

    fn from_u128(v: u128) -> (r: Self) {
        assert(Self::CARDINALITY == 0xffff_ffff_0000_0001);
        Self { val: (v % F) as u64 }
    }

    fn to_u128(self) -> (v: u128) {
        self.val as u128
    }

    fn is_zero(&self) -> (b: bool) {
        self.val == 0
    }

    fn add(self, rhs: Self) -> (r: Self) {
        assert(Self::CARDINALITY == 0xffff_ffff_0000_0001);
        Self { val: ((self.val as u128 + rhs.val as u128) % F) as u64 }
    }

    fn sub(self, rhs: Self) -> (r: Self) {
        assert(Self::CARDINALITY == 0xffff_ffff_0000_0001);
        Self { val: ((self.val as u128 + F - rhs.val as u128) % F) as u64 }
    }

    fn mul(self, rhs: Self) -> (r: Self) {
        assert(Self::CARDINALITY == 0xffff_ffff_0000_0001);
        assert(self.val * rhs.val <= 0xffff_ffff_0000_0000 * 0xffff_ffff_0000_0000)
            by (nonlinear_arith)
            requires
                self.val <= 0xffff_ffff_0000_0000,
                rhs.val <= 0xffff_ffff_0000_0000,
        ;
        Self { val: ((self.val as u128 * rhs.val as u128) % F) as u64 }
    }

    fn sample_rand(rng: &mut StdRng) -> (r: Self) {
        assert(Self::CARDINALITY == 0xffff_ffff_0000_0001);
        Self::from_u128(random_below(rng, 0xffff_ffff_0000_0001) as u128)
    }
}

} // verus!
