//! The field with two elements.

use crate::element::Element;
use crate::random::random_u8;
use rand::rngs::StdRng;
use vstd::arithmetic::power2::lemma2_to64;
use vstd::prelude::*;
use vstd::std_specs::convert::FromSpecImpl;

verus! {

const F: u8 = 2;

/// An integer modulo two.
#[derive(Debug, Clone, Copy, Default, PartialEq, Eq)]
pub struct BinaryScalar {
    pub(crate) val: u8,
}

impl BinaryScalar {
    /// Adds `rhs` in place.
    pub fn add_assign(&mut self, rhs: Self)
        requires
            old(self).value() < 2,
            rhs.value() < 2,
        ensures
            final(self).value() == (old(self).value() + rhs.value()) % 2,
    {
        self.val = (self.val + rhs.val) % F;
    }

    /// Subtracts `rhs` in place.
    pub fn sub_assign(&mut self, rhs: Self)
        requires
            old(self).value() < 2,
            rhs.value() < 2,
        ensures
            final(self).value() == (old(self).value() + 2 - rhs.value()) % 2,
    {
        self.val = ((self.val + F) - rhs.val) % F;
    }

    /// Multiplies by `rhs` in place.
    pub fn mul_assign(&mut self, rhs: Self)
        requires
            old(self).value() < 2,
            rhs.value() < 2,
        ensures
            final(self).value() == (old(self).value() * rhs.value()) % 2,
    {
        assert(self.val * rhs.val <= 1) by (nonlinear_arith)
            requires
                self.val < 2,
                rhs.val < 2,
        ;
        self.val = (self.val * rhs.val) % F;
    }
}

impl From<u8> for BinaryScalar {
    /// The element that stands for `value` modulo two.
    fn from(value: u8) -> (r: Self)
        ensures
            r.value() == (value as nat) % 2,
    {
        Self { val: value % F }
    }
}

impl FromSpecImpl<u8> for BinaryScalar {
    open spec fn obeys_from_spec() -> bool {
        true
    }

    closed spec fn from_spec(value: u8) -> Self {
        BinaryScalar { val: value % 2 }
    }
}

impl BinaryScalar {
    /// The constants of the ring, by value.
    pub proof fn lemma_constants()
        ensures
            Self::CARDINALITY == 2,
            Self::BIT_WIDTH == 1,
    {
    }
}

impl Element for BinaryScalar {
    const CARDINALITY: u128 = 2;

    const BIT_WIDTH: usize = 1;

    closed spec fn value(&self) -> nat {
        self.val as nat
    }

    proof fn lemma_value_determines(a: Self, b: Self) {
    }

    proof fn lemma_parameters() {
        assert(Self::CARDINALITY == 2);
        assert(Self::BIT_WIDTH == 1);
        lemma2_to64();
    }

    fn from_u128(v: u128) -> (r: Self) {
        assert(Self::CARDINALITY == 2);
        Self { val: (v % 2) as u8 }
    }

    fn to_u128(self) -> (v: u128) {
        self.val as u128
    }

    fn is_zero(&self) -> (b: bool) {
        self.val == 0
    }

    fn add(self, rhs: Self) -> (r: Self) {
        assert(Self::CARDINALITY == 2);
        let mut out: Self = self;
        out.add_assign(rhs);
        out
    }

    fn sub(self, rhs: Self) -> (r: Self) {
        assert(Self::CARDINALITY == 2);
        let mut out: Self = self;
        out.sub_assign(rhs);
        out
    }

    fn mul(self, rhs: Self) -> (r: Self) {
        assert(Self::CARDINALITY == 2);
        let mut out: Self = self;
        out.mul_assign(rhs);
        out
    }

    fn sample_rand(rng: &mut StdRng) -> (r: Self) {
        assert(Self::CARDINALITY == 2);
        Self::from(random_u8(rng))
    }
}

} // verus!
