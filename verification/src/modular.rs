//! Arithmetic in the ring of integers modulo `q`, on natural-number
//! representatives, together with the facts about it that the rest of the
//! crate relies on.

use vstd::arithmetic::div_mod::{
    lemma_add_mod_noop, lemma_fundamental_div_mod_converse, lemma_mod_bound,
    lemma_mul_mod_noop_general, lemma_small_mod, lemma_sub_mod_noop,
};
use vstd::prelude::*;

verus! {

/// Sum of two representatives, reduced modulo `q`.
pub open spec fn add_mod(a: nat, b: nat, q: nat) -> nat {
    (a + b) % q
}

/// Difference of two representatives, reduced into `[0, q)`.
pub open spec fn sub_mod(a: nat, b: nat, q: nat) -> nat {
    ((a - b) % (q as int)) as nat
}

/// Product of two representatives, reduced modulo `q`.
pub open spec fn mul_mod(a: nat, b: nat, q: nat) -> nat {
    (a * b) % q
}

/// Additive inverse of a representative.
pub open spec fn neg_mod(a: nat, q: nat) -> nat {
    sub_mod(0, a, q)
}

/// Distance of a representative from zero: the smaller of the representative
/// and the representative of its additive inverse.
pub open spec fn zero_distance(a: nat, q: nat) -> nat {
    if neg_mod(a, q) < a {
        neg_mod(a, q)
    } else {
        a
    }
}

/// Signed displacement of a representative from zero: the representative
/// itself when it lies in the lower half of the ring (the midpoint included),
/// otherwise the negative number congruent to it.
pub open spec fn signed_displacement(a: nat, q: nat) -> int {
    if 2 * a <= q {
        a as int
    } else {
        a - q
    }
}

/// The representative at a signed displacement from zero.
pub open spec fn at_signed_displacement(d: int, q: nat) -> nat {
    (d % (q as int)) as nat
}

/// A reduced value lies in `[0, q)`.
pub proof fn lemma_mod_range(x: int, q: nat)
    requires
        q > 0,
    ensures
        0 <= x % (q as int) < q,
{
    lemma_mod_bound(x, q as int);
}

/// The sum of two reduced representatives, in closed form.
pub proof fn lemma_add_mod_value(a: nat, b: nat, q: nat)
    requires
        a < q,
        b < q,
    ensures
        add_mod(a, b, q) == if a + b < q {
            a + b
        } else {
            (a + b - q) as nat
        },
        add_mod(a, b, q) < q,
{
    if a + b < q {
        lemma_small_mod(a + b, q);
    } else {
        lemma_fundamental_div_mod_converse((a + b) as int, q as int, 1, a + b - q);
    }
}

/// The difference of two reduced representatives, in closed form.
pub proof fn lemma_sub_mod_value(a: nat, b: nat, q: nat)
    requires
        a < q,
        b < q,
    ensures
        sub_mod(a, b, q) == if a >= b {
            (a - b) as nat
        } else {
            (a + q - b) as nat
        },
        sub_mod(a, b, q) < q,
{
    if a >= b {
        lemma_small_mod((a - b) as nat, q);
    } else {
        lemma_fundamental_div_mod_converse(a - b, q as int, -1, a + q - b);
    }
}

/// The additive inverse of a reduced representative, in closed form.
pub proof fn lemma_neg_mod_value(a: nat, q: nat)
    requires
        a < q,
    ensures
        neg_mod(a, q) == if a == 0 {
            0
        } else {
            (q - a) as nat
        },
        neg_mod(a, q) < q,
{
    lemma_sub_mod_value(0, a, q);
}

/// A product of reduced representatives is reduced.
pub proof fn lemma_mul_mod_range(a: nat, b: nat, q: nat)
    requires
        q > 0,
    ensures
        mul_mod(a, b, q) < q,
{
    lemma_mod_bound((a * b) as int, q as int);
}

/// Multiplying by the representative of `-1` negates.
pub proof fn lemma_mul_by_negone(a: nat, q: nat)
    requires
        a < q,
        q >= 2,
    ensures
        mul_mod(a, (q - 1) as nat, q) == neg_mod(a, q),
{
    lemma_neg_mod_value(a, q);
    if a == 0 {
        assert(a * ((q - 1) as nat) == 0);
        lemma_small_mod(0, q);
    } else {
        assert(a * ((q - 1) as nat) == (a - 1) * q + (q - a)) by (nonlinear_arith)
            requires
                0 < a < q,
        ;
        lemma_fundamental_div_mod_converse(
            (a * ((q - 1) as nat)) as int,
            q as int,
            a - 1,
            q - a,
        );
    }
}

/// Multiplying by one changes nothing.
pub proof fn lemma_mul_mod_one(a: nat, q: nat)
    requires
        a < q,
    ensures
        mul_mod(a, 1, q) == a,
{
    assert(a * 1 == a);
    lemma_small_mod(a, q);
}

/// Subtracting what was added gives back the start.
pub proof fn lemma_add_then_sub(a: nat, b: nat, q: nat)
    requires
        a < q,
        b < q,
    ensures
        sub_mod(add_mod(a, b, q), b, q) == a,
{
    lemma_add_mod_value(a, b, q);
    lemma_sub_mod_value(add_mod(a, b, q), b, q);
}

/// Subtracting the start from a sum leaves what was added, whatever the
/// order of the summands.
pub proof fn lemma_add_then_sub_left(a: nat, b: nat, q: nat)
    requires
        a < q,
        b < q,
    ensures
        sub_mod(add_mod(a, b, q), a, q) == b,
{
    lemma_add_mod_value(a, b, q);
    lemma_sub_mod_value(add_mod(a, b, q), a, q);
}

/// The distance from zero of a reduced representative, in closed form.
pub proof fn lemma_zero_distance_value(a: nat, q: nat)
    requires
        a < q,
    ensures
        zero_distance(a, q) == if 2 * a <= q {
            a
        } else {
            (q - a) as nat
        },
        2 * zero_distance(a, q) <= q,
{
    lemma_neg_mod_value(a, q);
}

/// The representative at a displacement of small magnitude, in closed form.
pub proof fn lemma_at_signed_displacement_value(d: int, q: nat)
    requires
        -(q as int) <= d < q,
    ensures
        at_signed_displacement(d, q) == if d >= 0 {
            d as nat
        } else {
            (q + d) as nat
        },
        at_signed_displacement(d, q) < q,
{
    if d >= 0 {
        lemma_small_mod(d as nat, q);
    } else {
        lemma_fundamental_div_mod_converse(d, q as int, -1, q + d);
    }
}

/// The distance from zero of a sum is at most the sum of the distances.
pub proof fn lemma_zero_distance_of_sum(a: nat, b: nat, q: nat)
    requires
        a < q,
        b < q,
    ensures
        zero_distance(add_mod(a, b, q), q) <= zero_distance(a, q) + zero_distance(b, q),
{
    lemma_add_mod_value(a, b, q);
    lemma_zero_distance_value(a, q);
    lemma_zero_distance_value(b, q);
    lemma_zero_distance_value(add_mod(a, b, q), q);
}

/// The distance from zero of a residue is at most the magnitude of any
/// integer in its class.
pub proof fn lemma_zero_distance_least(y: int, q: nat)
    requires
        q > 0,
    ensures
        zero_distance((y % (q as int)) as nat, q) <= if y >= 0 {
            y
        } else {
            -y
        },
{
    let r = y % (q as int);
    let k = y / (q as int);
    lemma_mod_bound(y, q as int);
    vstd::arithmetic::div_mod::lemma_fundamental_div_mod(y, q as int);
    lemma_zero_distance_value(r as nat, q);
    if k >= 1 {
        assert(q * k >= q) by (nonlinear_arith)
            requires
                k >= 1,
                q > 0,
        ;
    } else if k <= -1 {
        assert(q * k <= -q) by (nonlinear_arith)
            requires
                k <= -1,
                q > 0,
        ;
    } else {
        assert(q * k == 0) by (nonlinear_arith)
            requires
                k == 0,
        ;
    }
}

/// The distance from zero of a product is at most the product of the
/// distances.
pub proof fn lemma_zero_distance_of_product(a: nat, b: nat, q: nat)
    requires
        a < q,
        b < q,
    ensures
        zero_distance(mul_mod(a, b, q), q) <= zero_distance(a, q) * zero_distance(b, q),
{
    let da = signed_displacement(a, q);
    let db = signed_displacement(b, q);
    lemma_zero_distance_value(a, q);
    lemma_zero_distance_value(b, q);
    let ma = zero_distance(a, q) as int;
    let mb = zero_distance(b, q) as int;
    // the product of the displacements lies in the class of the product
    assert(da % (q as int) == a) by {
        if 2 * a <= q {
            lemma_small_mod(a, q);
        } else {
            lemma_fundamental_div_mod_converse(a - q, q as int, -1, a as int);
        }
    }
    assert(db % (q as int) == b) by {
        if 2 * b <= q {
            lemma_small_mod(b, q);
        } else {
            lemma_fundamental_div_mod_converse(b - q, q as int, -1, b as int);
        }
    }
    lemma_mul_mod_noop_general(da, db, q as int);
    assert((da * db) % (q as int) == ((a * b) as int) % (q as int));
    lemma_zero_distance_least(da * db, q);
    assert((if da * db >= 0 {
        da * db
    } else {
        -(da * db)
    }) == ma * mb) by (nonlinear_arith)
        requires
            da == ma || da == -ma,
            db == mb || db == -mb,
            ma >= 0,
            mb >= 0,
    ;
}

/// `(x + n) * s - x * s == n * s` in the ring.
pub proof fn lemma_scaled_sum_then_sub(x: nat, n: nat, s: nat, q: nat)
    requires
        q > 0,
    ensures
        sub_mod(mul_mod(add_mod(x, n, q), s, q), mul_mod(x, s, q), q) == mul_mod(n, s, q),
{
    lemma_mul_mod_absorbs(x + n, s, q);
    let whole = ((x + n) * s) as int;
    let part = (x * s) as int;
    lemma_sub_mod_absorbs(whole, part, q);
    assert(whole - part == n * s) by (nonlinear_arith)
        requires
            whole == (x + n) * s,
            part == x * s,
    ;
}

/// Reducing a summand before adding does not change the reduced sum.
pub proof fn lemma_add_mod_absorbs(x: nat, y: nat, q: nat)
    requires
        q > 0,
    ensures
        add_mod(x % q, y % q, q) == (x + y) % q,
        add_mod(x % q, y, q) == (x + y) % q,
        add_mod(x, y % q, q) == (x + y) % q,
{
    lemma_add_mod_noop(x as int, y as int, q as int);
    lemma_add_mod_noop((x % q) as int, y as int, q as int);
    lemma_add_mod_noop(x as int, (y % q) as int, q as int);
    lemma_mod_range(x as int, q);
    lemma_mod_range(y as int, q);
    lemma_small_mod(x % q, q);
    lemma_small_mod(y % q, q);
}

/// Reducing a factor before multiplying does not change the reduced product.
pub proof fn lemma_mul_mod_absorbs(x: nat, y: nat, q: nat)
    requires
        q > 0,
    ensures
        mul_mod(x % q, y % q, q) == (x * y) % q,
        mul_mod(x % q, y, q) == (x * y) % q,
        mul_mod(x, y % q, q) == (x * y) % q,
{
    lemma_mul_mod_noop_general(x as int, y as int, q as int);
}

/// Reducing either operand before subtracting does not change the reduced
/// difference.
pub proof fn lemma_sub_mod_absorbs(x: int, y: int, q: nat)
    requires
        q > 0,
    ensures
        ((x % (q as int)) - (y % (q as int))) % (q as int) == (x - y) % (q as int),
{
    lemma_sub_mod_noop(x, y, q as int);
}

} // verus!
