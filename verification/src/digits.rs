//! Decomposition of a ring element into little-endian digits of a fixed
//! number of bits, and recomposition by positional weights.

use crate::element::{digit_count, lemma_digit_count_bounds, modulus, Element};
use crate::linear::reduced;
use crate::modular::{lemma_add_mod_absorbs, lemma_mod_range, lemma_mul_mod_absorbs};
use crate::vector::Vector;
use vstd::arithmetic::div_mod::{
    lemma_div_denominator, lemma_div_pos_is_pos, lemma_mod_bound, lemma_mod_breakdown,
    lemma_mod_decreases, lemma_small_mod,
};
use vstd::arithmetic::power2::{
    lemma2_to64, lemma_pow2_adds, lemma_pow2_pos, lemma_pow2_strictly_increases, lemma_pow2_unfold,
    pow2,
};
use vstd::prelude::*;

verus! {

/// Digit `i` of `x` in base `2^bits`.
pub open spec fn digit(x: nat, bits: nat, i: nat) -> nat {
    (x / pow2(bits * i)) % pow2(bits)
}

/// The first `count` digits of `x` in base `2^bits`, least significant
/// first.
pub open spec fn digits_of(x: nat, bits: nat, count: nat) -> Seq<nat> {
    Seq::new(count, |i: int| digit(x, bits, i as nat))
}

/// The number that the first `n` digits stand for: digit `i` weighs
/// `(2^bits)^i`.
pub open spec fn positional(digits: Seq<nat>, bits: nat, n: int) -> nat
    decreases n,
{
    if n <= 0 {
        0
    } else {
        positional(digits, bits, n - 1) + digits[n - 1] * pow2(bits * ((n - 1) as nat))
    }
}

/// The element of the ring modulo `q` that the digits stand for.
pub open spec fn recompose(digits: Seq<nat>, bits: nat, q: nat) -> nat {
    positional(digits, bits, digits.len() as int) % q
}

/// Every digit of a decomposition is below `2^bits`.
pub proof fn lemma_digits_bounded(x: nat, bits: nat, count: nat)
    ensures
        reduced(digits_of(x, bits, count), pow2(bits)),
{
    lemma_pow2_pos(bits);
    assert forall|i: int| 0 <= i < count implies #[trigger] digits_of(x, bits, count)[i] < pow2(
        bits,
    ) by {
        lemma_mod_bound((x / pow2(bits * (i as nat))) as int, pow2(bits) as int);
    }
}

/// The first `n` digits of `x` stand for `x` modulo `2^(bits * n)`.
pub proof fn lemma_positional_of_digits(x: nat, bits: nat, count: nat, n: nat)
    requires
        n <= count,
    ensures
        positional(digits_of(x, bits, count), bits, n as int) == x % pow2(bits * n),
    decreases n,
{
    if n == 0 {
        assert(bits * 0 == 0);
        lemma2_to64();
    } else {
        let k = (n - 1) as nat;
        lemma_positional_of_digits(x, bits, count, k);
        lemma_pow2_pos(bits * k);
        lemma_pow2_pos(bits);
        lemma_mod_breakdown(x as int, pow2(bits * k) as int, pow2(bits) as int);
        assert(bits * n == bits * k + bits) by (nonlinear_arith)
            requires
                n == k + 1,
        ;
        lemma_pow2_adds(bits * k, bits);
        let d = digits_of(x, bits, count)[k as int];
        assert(d == (x / pow2(bits * k)) % pow2(bits));
        assert(d * pow2(bits * k) == pow2(bits * k) * d) by (nonlinear_arith);
    }
}

/// Decomposing an element and recomposing the digits gives the element
/// back, for every digit width of at least one bit, once the digits cover
/// the bits of the ring.
pub proof fn lemma_round_trip(x: nat, bits: nat, width: nat, q: nat)
    requires
        bits >= 1,
        width >= 1,
        x < q,
        q <= pow2(width),
    ensures
        recompose(digits_of(x, bits, digit_count(width, bits)), bits, q) == x,
{
    let count = digit_count(width, bits);
    lemma_positional_of_digits(x, bits, count, count);
    lemma_digit_count_bounds(width, bits);
    assert(bits * count == count * bits) by (nonlinear_arith);
    if width < bits * count {
        lemma_pow2_strictly_increases(width, bits * count);
    }
    lemma_small_mod(x, pow2(bits * count));
    lemma_small_mod(x, q);
}

/// The round trip of [`lemma_round_trip`], for the elements of a ring:
/// whatever [`Decompose::from_le_bits_vec`] returns for the digits that
/// [`Decompose::as_le_bits_vec`] gives of `x` is `x`.
pub proof fn lemma_element_round_trip<E: Element>(x: E, bits: usize, back: E)
    requires
        bits >= 1,
        x.value() < E::CARDINALITY,
        back.value() == recompose(
            digits_of(x.value(), bits as nat, digit_count(E::BIT_WIDTH as nat, bits as nat)),
            bits as nat,
            modulus::<E>(),
        ),
    ensures
        back == x,
{
    E::lemma_parameters();
    lemma_round_trip(x.value(), bits as nat, E::BIT_WIDTH as nat, modulus::<E>());
    E::lemma_value_determines(back, x);
}

/// Shifting one to the left gives the power of two.
pub proof fn lemma_one_shifted(k: u128)
    requires
        k < 128,
    ensures
        (1u128 << k) == pow2(k as nat),
    decreases k,
{
    if k == 0 {
        assert((1u128 << 0u128) == 1u128) by (bit_vector);
        lemma2_to64();
    } else {
        let j: u128 = (k - 1) as u128;
        lemma_one_shifted(j);
        assert((1u128 << k) == 2 * (1u128 << j)) by (bit_vector)
            requires
                0 < k < 128,
                j == k - 1,
        ;
        lemma_pow2_unfold(k as nat);
    }
}

/// The element that stands for `2^bits`.
fn power_of_two<E: Element>(bits: usize) -> (r: E)
    ensures
        r.value() == pow2(bits as nat) % modulus::<E>(),
        r.value() < E::CARDINALITY,
{
    proof {
        E::lemma_parameters();
    }
    if bits < 128 {
        proof {
            lemma_one_shifted(bits as u128);
        }
        E::from_u128(1u128 << (bits as u128))
    } else {
        proof {
            lemma_one_shifted(127);
        }
        let mut r: E = E::from_u128(1u128 << 127u128);
        let mut k: usize = 127;
        while k < bits
            invariant
                127 <= k <= bits,
                E::CARDINALITY >= 2,
                r.value() == pow2(k as nat) % modulus::<E>(),
            decreases bits - k,
        {
            proof {
                lemma_mod_range(pow2(k as nat) as int, modulus::<E>());
                lemma_add_mod_absorbs(pow2(k as nat), pow2(k as nat), modulus::<E>());
                lemma_pow2_unfold((k + 1) as nat);
            }
            r = r.add(r);
            k += 1;
        }
        r
    }
}

/// Digit decomposition, for every ring.
pub trait Decompose: Element {
    /// The element as [`Element::bits_vec_len`] digits of `bits` bits each,
    /// least significant first. Each digit is below `2^bits`.
    fn as_le_bits_vec(&self, bits: usize) -> (out: Vector<Self>)
        requires
            bits >= 1,
            self.value() < Self::CARDINALITY,
        ensures
            out@ == digits_of(
                self.value(),
                bits as nat,
                digit_count(Self::BIT_WIDTH as nat, bits as nat),
            ),
            out.wf(),
    {
        let parts_len: usize = Self::bits_vec_len(bits);
        let mut out: Vector<Self> = Vector::new(parts_len);
        let mut v: u128 = self.to_u128();
        let ghost x: nat = self.value();
        let ghost b: nat = bits as nat;
        proof {
            Self::lemma_parameters();
            lemma_pow2_pos(b);
        }
        if bits >= 128 {
            proof {
                if (Self::BIT_WIDTH as nat) < b {
                    lemma_pow2_strictly_increases(Self::BIT_WIDTH as nat, b);
                }
                assert(b * 0 == 0);
                lemma2_to64();
                lemma_small_mod(x, pow2(b));
                lemma_digit_count_bounds(Self::BIT_WIDTH as nat, b);
                let count = digit_count(Self::BIT_WIDTH as nat, b);
                assert(count == 1) by (nonlinear_arith)
                    requires
                        1 <= count,
                        count * b < Self::BIT_WIDTH + b,
                        Self::BIT_WIDTH <= b,
                ;
                assert(digit(x, b, 0) == x);
            }
            out.set(0, *self);
            assert(out@ =~= digits_of(x, b, 1));
            return out;
        }
        proof {
            lemma_one_shifted(bits as u128);
            assert(b * 0 == 0);
            lemma2_to64();
        }
        let divisor: u128 = 1u128 << (bits as u128);
        let mut i: usize = 0;
        while i < parts_len
            invariant_except_break
                i <= parts_len,
            invariant
                bits >= 1,
                b == bits as nat,
                x < Self::CARDINALITY,
                divisor == pow2(b),
                divisor > 0,
                out@.len() == parts_len,
                v == x / pow2(b * (i as nat)),
                forall|j: int| 0 <= j < i ==> #[trigger] out@[j] == digit(x, b, j as nat),
                forall|j: int| i <= j < parts_len ==> #[trigger] out@[j] == 0,
            ensures
                forall|j: int| 0 <= j < parts_len ==> #[trigger] out@[j] == digit(x, b, j as nat),
            decreases parts_len - i,
        {
            if v == 0 {
                proof {
                    assert forall|j: int| i <= j < parts_len implies #[trigger] out@[j] == digit(
                        x,
                        b,
                        j as nat,
                    ) by {
                        lemma_high_digits_vanish(x, b, i as nat, j as nat);
                    }
                }
                break;
            }
            let part: u128 = v % divisor;
            proof {
                lemma_pow2_pos(b * (i as nat));
                lemma_div_at_most(x, pow2(b * (i as nat)));
                lemma_mod_decreases(v as nat, divisor as nat);
                lemma_small_mod(part as nat, modulus::<Self>());
                lemma_div_denominator(x as int, pow2(b * (i as nat)) as int, pow2(b) as int);
                assert(b * ((i + 1) as nat) == b * (i as nat) + b) by (nonlinear_arith);
                lemma_pow2_adds(b * (i as nat), b);
            }
            out.set(i, Self::from_u128(part));
            v = v / divisor;
            i += 1;
        }
        assert(out@ =~= digits_of(x, b, parts_len as nat));
        proof {
            assert forall|j: int| 0 <= j < out@.len() implies #[trigger] out@[j] < modulus::<
                Self,
            >() by {
                lemma_pow2_pos(b * (j as nat));
                lemma_pow2_pos(b);
                lemma_div_at_most(x, pow2(b * (j as nat)));
                lemma_mod_decreases(x / pow2(b * (j as nat)), pow2(b));
            }
        }
        out
    }

    /// The element that the digits stand for, digit `i` weighing
    /// `(2^bits)^i` in the ring.
    fn from_le_bits_vec(parts: Vector<Self>, bits: usize) -> (out: Self)
        requires
            parts.wf(),
        ensures
            out.value() == recompose(parts@, bits as nat, modulus::<Self>()),
            out.value() < Self::CARDINALITY,
    {
        let base: Self = power_of_two::<Self>(bits);
        let mut mult: Self = Self::one();
        let mut out: Self = Self::zero();
        let n: usize = parts.len();
        let mut i: usize = 0;
        let ghost b: nat = bits as nat;
        let ghost q: nat = modulus::<Self>();
        proof {
            Self::lemma_parameters();
            assert(b * 0 == 0);
            lemma2_to64();
            lemma_small_mod(1, q);
            lemma_small_mod(0, q);
        }
        while i < n
            invariant
                i <= n,
                n == parts@.len(),
                parts.wf(),
                b == bits as nat,
                q == modulus::<Self>(),
                q >= 2,
                base.value() == pow2(b) % q,
                mult.value() == pow2(b * (i as nat)) % q,
                out.value() == positional(parts@, b, i as int) % q,
            decreases n - i,
        {
            let ghost w: nat = pow2(b * (i as nat));
            let ghost p: nat = parts@[i as int];
            proof {
                assert(p < q);
                lemma_mod_range(w as int, q);
                lemma_mod_range(pow2(b) as int, q);
                lemma_mod_range(positional(parts@, b, i as int) as int, q);
                lemma_mul_mod_absorbs(p, w, q);
                lemma_add_mod_absorbs(positional(parts@, b, i as int), p * w, q);
                lemma_mul_mod_absorbs(w, pow2(b), q);
                assert(b * ((i + 1) as nat) == b * (i as nat) + b) by (nonlinear_arith);
                lemma_pow2_adds(b * (i as nat), b);
            }
            out = out.add((*parts.index(i)).mul(mult));
            mult = mult.mul(base);
            i += 1;
        }
        out
    }
}

impl<E: Element> Decompose for E {

}

/// A quotient is at most the number divided.
proof fn lemma_div_at_most(x: nat, d: nat)
    requires
        d > 0,
    ensures
        x / d <= x,
{
    vstd::arithmetic::div_mod::lemma_div_nonincreasing(x as int, d as int);
    lemma_div_pos_is_pos(x as int, d as int);
}

/// Once the digits below `i` have used up `x`, every higher digit is zero.
proof fn lemma_high_digits_vanish(x: nat, bits: nat, i: nat, j: nat)
    requires
        i <= j,
        x / pow2(bits * i) == 0,
    ensures
        digit(x, bits, j) == 0,
{
    let k = (j - i) as nat;
    lemma_pow2_pos(bits * i);
    lemma_pow2_pos(bits * k);
    lemma_pow2_pos(bits);
    assert(bits * j == bits * i + bits * k) by (nonlinear_arith)
        requires
            j == i + k,
    ;
    lemma_pow2_adds(bits * i, bits * k);
    lemma_div_denominator(x as int, pow2(bits * i) as int, pow2(bits * k) as int);
    assert(0int / (pow2(bits * k) as int) == 0) by {
        vstd::arithmetic::div_mod::lemma_div_basics(pow2(bits * k) as int);
    }
    lemma_small_mod(0, pow2(bits));
}

} // verus!
