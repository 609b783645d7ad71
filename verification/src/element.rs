//! The ring that vectors, matrices and commitments are built over.

use crate::modular::{
    add_mod, at_signed_displacement, lemma_at_signed_displacement_value, lemma_mod_range,
    lemma_mul_by_negone, lemma_sub_mod_absorbs, lemma_sub_mod_value, lemma_zero_distance_value, mul_mod,
    signed_displacement, sub_mod, zero_distance,
};
use rand::rngs::StdRng;
use vstd::arithmetic::div_mod::lemma_small_mod;
use vstd::arithmetic::power2::pow2;
use vstd::prelude::*;

verus! {

/// Number of digits of `width` bits needed to hold `total` bits.
pub open spec fn digit_count(total: nat, width: nat) -> nat {
    if total % width == 0 {
        total / width
    } else {
        total / width + 1
    }
}

/// An element of the ring of integers modulo [`Element::CARDINALITY`].
///
/// Every element stands for the natural number [`Element::value`]. The
/// arithmetic below is exact modular arithmetic on those numbers; the
/// elements that it takes must be reduced, that is, have a value below
/// `CARDINALITY`, and those that it returns are.
pub trait Element: Sized + Copy {
    /// Number of elements of the ring.
    const CARDINALITY: u128;

    /// Number of bits of a reduced value: the least `w` with
    /// `CARDINALITY <= 2^w`.
    const BIT_WIDTH: usize;

    /// The natural number that the element stands for.
    spec fn value(&self) -> nat;

    /// The two constants fit together, and the ring has at least two
    /// elements.
    proof fn lemma_parameters()
        ensures
            Self::CARDINALITY >= 2,
            1 <= Self::BIT_WIDTH <= 128,
            pow2((Self::BIT_WIDTH - 1) as nat) < Self::CARDINALITY <= pow2(Self::BIT_WIDTH as nat),
    ;

    /// An element is determined by the number that it stands for.
    proof fn lemma_value_determines(a: Self, b: Self)
        requires
            a.value() == b.value(),
        ensures
            a == b,
    ;

    /// The element that stands for `v` reduced modulo the cardinality.
    fn from_u128(v: u128) -> (r: Self)
        ensures
            r.value() == (v as nat) % (Self::CARDINALITY as nat),
            r.value() < Self::CARDINALITY,
    ;

    /// The number that the element stands for.
    fn to_u128(self) -> (v: u128)
        ensures
            v == self.value(),
    ;

    /// Is the element the additive identity?
    fn is_zero(&self) -> (b: bool)
        ensures
            b == (self.value() == 0),
    ;

    /// Sum in the ring.
    fn add(self, rhs: Self) -> (r: Self)
        requires
            self.value() < Self::CARDINALITY,
            rhs.value() < Self::CARDINALITY,
        ensures
            r.value() == add_mod(self.value(), rhs.value(), Self::CARDINALITY as nat),
            r.value() < Self::CARDINALITY,
    ;

    /// Difference in the ring.
    fn sub(self, rhs: Self) -> (r: Self)
        requires
            self.value() < Self::CARDINALITY,
            rhs.value() < Self::CARDINALITY,
        ensures
            r.value() == sub_mod(self.value(), rhs.value(), Self::CARDINALITY as nat),
            r.value() < Self::CARDINALITY,
    ;

    /// Product in the ring.
    fn mul(self, rhs: Self) -> (r: Self)
        requires
            self.value() < Self::CARDINALITY,
            rhs.value() < Self::CARDINALITY,
        ensures
            r.value() == mul_mod(self.value(), rhs.value(), Self::CARDINALITY as nat),
            r.value() < Self::CARDINALITY,
    ;

    /// An element drawn from the generator. Whatever is drawn, the element
    /// is reduced.
    fn sample_rand(rng: &mut StdRng) -> (r: Self)
        ensures
            r.value() < Self::CARDINALITY,
    ;

    /// Additive identity.
    fn zero() -> (r: Self)
        ensures
            r.value() == 0,
    {
        proof {
            Self::lemma_parameters();
            lemma_small_mod(0, Self::CARDINALITY as nat);
        }
        Self::from_u128(0)
    }

    /// Multiplicative identity.
    fn one() -> (r: Self)
        ensures
            r.value() == 1,
    {
        proof {
            Self::lemma_parameters();
            lemma_small_mod(1, Self::CARDINALITY as nat);
        }
        Self::from_u128(1)
    }

    /// Additive inverse of the multiplicative identity: multiplying by it
    /// flips a value about zero.
    fn negone() -> (r: Self)
        ensures
            r.value() == Self::CARDINALITY - 1,
    {
        proof {
            Self::lemma_parameters();
            lemma_sub_mod_value(0, 1, Self::CARDINALITY as nat);
        }
        Self::zero().sub(Self::one())
    }

    /// Distance of the element from zero: the smaller of its value and the
    /// value of its additive inverse. A measurement on representatives, not
    /// an operation of the ring.
    fn zero_dist(self) -> (d: u128)
        requires
            self.value() < Self::CARDINALITY,
        ensures
            d == zero_distance(self.value(), Self::CARDINALITY as nat),
            2 * d <= Self::CARDINALITY,
    {
        proof {
            Self::lemma_parameters();
            lemma_mul_by_negone(self.value(), Self::CARDINALITY as nat);
            lemma_zero_distance_value(self.value(), Self::CARDINALITY as nat);
        }
        let negative: u128 = self.mul(Self::negone()).to_u128();
        let positive: u128 = self.to_u128();
        if negative < positive {
            negative
        } else {
            positive
        }
    }

    /// The distance of [`Element::zero_dist`], as a signed integer.
    fn zero_disp(self) -> (d: i128)
        requires
            self.value() < Self::CARDINALITY,
        ensures
            d == zero_distance(self.value(), Self::CARDINALITY as nat),
    {
        let dist: u128 = self.zero_dist();
        dist as i128
    }

    /// Signed displacement of the element from zero: its value when that is
    /// at most half the cardinality, otherwise its value minus the
    /// cardinality.
    fn displacement(self) -> (d: i128)
        requires
            self.value() < Self::CARDINALITY,
        ensures
            d == signed_displacement(self.value(), Self::CARDINALITY as nat),
    {
        let v: u128 = self.to_u128();
        let above: u128 = Self::CARDINALITY - v;
        if v <= above {
            v as i128
        } else {
            let below: i128 = above as i128;
            -below
        }
    }

    /// The element at a signed displacement from zero: `disp` itself when
    /// it is not negative, the cardinality plus `disp` when it is, each
    /// reduced modulo the cardinality.
    fn at_displacement(disp: i32) -> (r: Self)
        ensures
            r.value() == at_signed_displacement(disp as int, Self::CARDINALITY as nat),
            r.value() < Self::CARDINALITY,
            0 <= disp < Self::CARDINALITY ==> r.value() == disp,
            -Self::CARDINALITY <= disp < 0 ==> r.value() == Self::CARDINALITY + disp,
    {
        proof {
            Self::lemma_parameters();
            lemma_mod_range(disp as int, Self::CARDINALITY as nat);
            if -Self::CARDINALITY <= disp < Self::CARDINALITY {
                lemma_at_signed_displacement_value(disp as int, Self::CARDINALITY as nat);
            }
        }
        if disp >= 0 {
            Self::from_u128(disp as u128)
        } else {
            let magnitude: i64 = -(disp as i64);
            let back: Self = Self::from_u128(magnitude as u128);
            proof {
                let q = Self::CARDINALITY as nat;
                lemma_small_mod(0, q);
                lemma_sub_mod_absorbs(0, magnitude as int, q);
            }
            Self::zero().sub(back)
        }
    }

    /// Number of digits of `bits` bits each that hold one element.
    fn bits_vec_len(bits: usize) -> (n: usize)
        requires
            bits >= 1,
        ensures
            n == digit_count(Self::BIT_WIDTH as nat, bits as nat),
            1 <= n <= Self::BIT_WIDTH,
    {
        proof {
            Self::lemma_parameters();
            lemma_digit_count_bounds(Self::BIT_WIDTH as nat, bits as nat);
        }
        let whole: usize = Self::BIT_WIDTH / bits;
        if Self::BIT_WIDTH % bits == 0 {
            whole
        } else {
            whole + 1
        }
    }
}

/// The cardinality of a ring, as a natural number.
pub open spec fn modulus<E: Element>() -> nat {
    E::CARDINALITY as nat
}

/// A reduced element that is turned into its number and back is itself
/// again: whatever `from_u128` returns for the number of `x` is `x`.
pub proof fn lemma_number_round_trip<E: Element>(x: E, back: E)
    requires
        x.value() < E::CARDINALITY,
        back.value() == x.value() % modulus::<E>(),
    ensures
        back == x,
{
    lemma_small_mod(x.value(), modulus::<E>());
    E::lemma_value_determines(back, x);
}

/// The digits cover the bits, with less than one digit to spare.
pub proof fn lemma_digit_count_bounds(total: nat, width: nat)
    requires
        total >= 1,
        width >= 1,
    ensures
        1 <= digit_count(total, width) <= total,
        total <= digit_count(total, width) * width < total + width,
{
    let n = digit_count(total, width);
    let k = total / width;
    let r = total % width;
    vstd::arithmetic::div_mod::lemma_fundamental_div_mod(total as int, width as int);
    vstd::arithmetic::div_mod::lemma_mod_bound(total as int, width as int);
    assert(total == width * k + r);
    vstd::arithmetic::mul::lemma_mul_is_commutative(width as int, k as int);
    assert(0 <= k) by {
        vstd::arithmetic::div_mod::lemma_div_pos_is_pos(total as int, width as int);
    }
    assert(k <= total) by {
        vstd::arithmetic::div_mod::lemma_div_nonincreasing(total as int, width as int);
    }
    if r == 0 {
        assert(k >= 1) by {
            if k == 0 {
                assert(width * k == 0);
            }
        }
    } else {
        assert((k + 1) * width == k * width + width) by (nonlinear_arith);
        assert(k + 1 <= total) by {
            assert(k * width >= k) by (nonlinear_arith)
                requires
                    width >= 1,
                    k >= 0,
            ;
        }
    }
}

} // verus!
