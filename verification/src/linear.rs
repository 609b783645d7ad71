//! Vectors and matrices over the integers modulo `q`, as sequences of
//! representatives: the model that the contracts of `Vector` and `Matrix`
//! speak of.

use crate::modular::{
    add_mod, lemma_add_mod_absorbs, lemma_add_then_sub, lemma_add_then_sub_left, lemma_mod_range,
    lemma_mul_mod_absorbs, lemma_mul_mod_one, lemma_mul_mod_range, mul_mod, sub_mod,
};
use vstd::arithmetic::div_mod::{lemma_add_mod_noop, lemma_small_mod};
use vstd::prelude::*;

verus! {

/// Every entry is a reduced representative.
pub open spec fn reduced(u: Seq<nat>, q: nat) -> bool {
    forall|i: int| 0 <= i < u.len() ==> #[trigger] u[i] < q
}

/// Every row has `width` entries, each of them reduced.
pub open spec fn reduced_rows(m: Seq<Seq<nat>>, width: nat, q: nat) -> bool {
    forall|i: int| 0 <= i < m.len() ==> (#[trigger] m[i]).len() == width && reduced(m[i], q)
}

/// The vector of `n` zeros.
pub open spec fn zeros(n: nat) -> Seq<nat> {
    Seq::new(n, |i: int| 0nat)
}

/// Entrywise sum.
pub open spec fn vec_add(u: Seq<nat>, v: Seq<nat>, q: nat) -> Seq<nat> {
    Seq::new(u.len(), |i: int| add_mod(u[i], v[i], q))
}

/// Entrywise difference.
pub open spec fn vec_sub(u: Seq<nat>, v: Seq<nat>, q: nat) -> Seq<nat> {
    Seq::new(u.len(), |i: int| sub_mod(u[i], v[i], q))
}

/// Entrywise (Hadamard) product.
pub open spec fn vec_mul(u: Seq<nat>, v: Seq<nat>, q: nat) -> Seq<nat> {
    Seq::new(u.len(), |i: int| mul_mod(u[i], v[i], q))
}

/// Every entry multiplied by the scalar `s`.
pub open spec fn vec_scale(u: Seq<nat>, s: nat, q: nat) -> Seq<nat> {
    Seq::new(u.len(), |i: int| mul_mod(u[i], s, q))
}

/// The scalar `s` added to every entry.
pub open spec fn vec_add_scalar(u: Seq<nat>, s: nat, q: nat) -> Seq<nat> {
    Seq::new(u.len(), |i: int| add_mod(u[i], s, q))
}

/// Sum of the first `n` entries, as an integer.
pub open spec fn sum_upto(u: Seq<nat>, n: int) -> nat
    decreases n,
{
    if n <= 0 {
        0
    } else {
        sum_upto(u, n - 1) + u[n - 1]
    }
}

/// Sum of all entries, in the ring.
pub open spec fn vec_sum(u: Seq<nat>, q: nat) -> nat {
    sum_upto(u, u.len() as int) % q
}

/// Sum of the products of the first `n` pairs of entries, as an integer.
pub open spec fn inner_upto(u: Seq<nat>, v: Seq<nat>, n: int) -> nat
    decreases n,
{
    if n <= 0 {
        0
    } else {
        inner_upto(u, v, n - 1) + u[n - 1] * v[n - 1]
    }
}

/// Dot product in the ring: the sum of the pairwise products.
pub open spec fn dot(u: Seq<nat>, v: Seq<nat>, q: nat) -> nat {
    inner_upto(u, v, u.len() as int) % q
}

/// Number of places that both vectors have.
pub open spec fn common_len(u: Seq<nat>, v: Seq<nat>) -> int {
    if u.len() <= v.len() {
        u.len() as int
    } else {
        v.len() as int
    }
}

/// Dot product over the places that both vectors have: the sum of the
/// pairwise products, stopping where the shorter vector ends.
pub open spec fn dot_leading(u: Seq<nat>, v: Seq<nat>, q: nat) -> nat {
    inner_upto(u, v, common_len(u, v)) % q
}

/// Product of a matrix with a vector that may be shorter than the matrix
/// is wide: each row contributes its first `v.len()` columns only.
pub open spec fn mat_vec_leading(m: Seq<Seq<nat>>, v: Seq<nat>, q: nat) -> Seq<nat> {
    Seq::new(m.len(), |i: int| dot_leading(m[i], v, q))
}

/// Matrix-vector product: the dot product of each row with the vector.
pub open spec fn mat_vec(m: Seq<Seq<nat>>, v: Seq<nat>, q: nat) -> Seq<nat> {
    Seq::new(m.len(), |i: int| dot(m[i], v, q))
}

/// Entrywise sum of two matrices.
pub open spec fn mat_add(a: Seq<Seq<nat>>, b: Seq<Seq<nat>>, q: nat) -> Seq<Seq<nat>> {
    Seq::new(a.len(), |i: int| vec_add(a[i], b[i], q))
}

/// Entrywise product of two matrices.
pub open spec fn mat_mul(a: Seq<Seq<nat>>, b: Seq<Seq<nat>>, q: nat) -> Seq<Seq<nat>> {
    Seq::new(a.len(), |i: int| vec_mul(a[i], b[i], q))
}

/// The matrix of `height` rows of `width` zeros.
pub open spec fn mat_zero(width: nat, height: nat) -> Seq<Seq<nat>> {
    Seq::new(height, |i: int| zeros(width))
}

/// The identity matrix of size `n`.
pub open spec fn mat_identity(n: nat) -> Seq<Seq<nat>> {
    Seq::new(
        n,
        |i: int|
            Seq::new(
                n,
                |j: int|
                    if i == j {
                        1nat
                    } else {
                        0nat
                    },
            ),
    )
}

/// The rows of `a`, each followed by the row of `b` at the same height.
pub open spec fn mat_beside(a: Seq<Seq<nat>>, b: Seq<Seq<nat>>) -> Seq<Seq<nat>> {
    Seq::new(a.len(), |i: int| a[i] + b[i])
}

/// The results of the entrywise operations are reduced.
pub proof fn lemma_entrywise_reduced(u: Seq<nat>, v: Seq<nat>, s: nat, q: nat)
    requires
        q > 0,
    ensures
        reduced(vec_add(u, v, q), q),
        reduced(vec_sub(u, v, q), q),
        reduced(vec_mul(u, v, q), q),
        reduced(vec_scale(u, s, q), q),
        reduced(vec_add_scalar(u, s, q), q),
{
    assert forall|i: int| 0 <= i < u.len() implies #[trigger] vec_add(u, v, q)[i] < q by {
        lemma_mod_range((u[i] + v[i]) as int, q);
    }
    assert forall|i: int| 0 <= i < u.len() implies #[trigger] vec_sub(u, v, q)[i] < q by {
        lemma_mod_range(u[i] - v[i], q);
    }
    assert forall|i: int| 0 <= i < u.len() implies #[trigger] vec_mul(u, v, q)[i] < q by {
        lemma_mul_mod_range(u[i], v[i], q);
    }
    assert forall|i: int| 0 <= i < u.len() implies #[trigger] vec_scale(u, s, q)[i] < q by {
        lemma_mul_mod_range(u[i], s, q);
    }
    assert forall|i: int| 0 <= i < u.len() implies #[trigger] vec_add_scalar(u, s, q)[i] < q by {
        lemma_mod_range((u[i] + s) as int, q);
    }
}

/// The product of a matrix and a vector has one entry for each row, each
/// of them reduced.
pub proof fn lemma_mat_vec_shape(m: Seq<Seq<nat>>, v: Seq<nat>, q: nat)
    requires
        q > 0,
    ensures
        mat_vec(m, v, q).len() == m.len(),
        reduced(mat_vec(m, v, q), q),
{
    assert forall|i: int| 0 <= i < m.len() implies #[trigger] mat_vec(m, v, q)[i] < q by {
        lemma_mod_range(inner_upto(m[i], v, m[i].len() as int) as int, q);
    }
}

/// The leading product has one entry for each row, each of them reduced.
pub proof fn lemma_mat_vec_leading_shape(m: Seq<Seq<nat>>, v: Seq<nat>, q: nat)
    requires
        q > 0,
    ensures
        mat_vec_leading(m, v, q).len() == m.len(),
        reduced(mat_vec_leading(m, v, q), q),
{
    assert forall|i: int| 0 <= i < m.len() implies #[trigger] mat_vec_leading(m, v, q)[i] < q by {
        lemma_mod_range(inner_upto(m[i], v, common_len(m[i], v)) as int, q);
    }
}

/// Where the vector is as long as the rows, the leading product is the
/// product.
pub proof fn lemma_mat_vec_leading_is_mat_vec(m: Seq<Seq<nat>>, v: Seq<nat>, q: nat)
    requires
        forall|i: int| 0 <= i < m.len() ==> (#[trigger] m[i]).len() == v.len(),
    ensures
        mat_vec_leading(m, v, q) == mat_vec(m, v, q),
{
    assert(mat_vec_leading(m, v, q) =~= mat_vec(m, v, q));
}

/// A sum of products whose left factors are all zero is zero.
pub proof fn lemma_inner_of_zeros(u: Seq<nat>, v: Seq<nat>, n: int)
    requires
        forall|k: int| 0 <= k < n ==> u[k] == 0,
    ensures
        inner_upto(u, v, n) == 0,
    decreases n,
{
    if n > 0 {
        lemma_inner_of_zeros(u, v, n - 1);
        assert(u[n - 1] * v[n - 1] == 0) by (nonlinear_arith)
            requires
                u[n - 1] == 0,
        ;
    }
}

/// Subtracting a vector that was added gives back the start.
pub proof fn lemma_vec_add_then_sub(u: Seq<nat>, v: Seq<nat>, q: nat)
    requires
        u.len() == v.len(),
        reduced(u, q),
        reduced(v, q),
    ensures
        vec_sub(vec_add(u, v, q), v, q) == u,
{
    assert forall|i: int| 0 <= i < u.len() implies vec_sub(vec_add(u, v, q), v, q)[i] == u[i] by {
        lemma_add_then_sub(u[i], v[i], q);
    }
    assert(vec_sub(vec_add(u, v, q), v, q) =~= u);
}

/// Subtracting the start from a sum leaves the vector that was added.
pub proof fn lemma_vec_add_then_sub_left(u: Seq<nat>, v: Seq<nat>, q: nat)
    requires
        u.len() == v.len(),
        reduced(u, q),
        reduced(v, q),
    ensures
        vec_sub(vec_add(u, v, q), u, q) == v,
{
    assert forall|i: int| 0 <= i < u.len() implies vec_sub(vec_add(u, v, q), u, q)[i] == v[i] by {
        lemma_add_then_sub_left(u[i], v[i], q);
    }
    assert(vec_sub(vec_add(u, v, q), u, q) =~= v);
}

/// Scaling by one changes nothing.
pub proof fn lemma_vec_scale_one(u: Seq<nat>, q: nat)
    requires
        reduced(u, q),
    ensures
        vec_scale(u, 1, q) == u,
{
    assert forall|i: int| 0 <= i < u.len() implies vec_scale(u, 1, q)[i] == u[i] by {
        lemma_mul_mod_one(u[i], q);
    }
    assert(vec_scale(u, 1, q) =~= u);
}

/// A dot product distributes over the sum of vectors.
pub proof fn lemma_dot_of_sum(r: Seq<nat>, a: Seq<nat>, b: Seq<nat>, q: nat)
    requires
        q > 0,
        a.len() == r.len(),
        b.len() == r.len(),
    ensures
        dot(r, vec_add(a, b, q), q) == add_mod(dot(r, a, q), dot(r, b, q), q),
{
    lemma_inner_of_sum(r, a, b, q, r.len() as int);
    lemma_add_mod_absorbs(
        inner_upto(r, a, r.len() as int),
        inner_upto(r, b, r.len() as int),
        q,
    );
}

proof fn lemma_inner_of_sum(r: Seq<nat>, a: Seq<nat>, b: Seq<nat>, q: nat, n: int)
    requires
        q > 0,
        a.len() == r.len(),
        b.len() == r.len(),
        0 <= n <= r.len(),
    ensures
        inner_upto(r, vec_add(a, b, q), n) % q == (inner_upto(r, a, n) + inner_upto(r, b, n)) % q,
    decreases n,
{
    if n > 0 {
        lemma_inner_of_sum(r, a, b, q, n - 1);
        let s = vec_add(a, b, q);
        let x = inner_upto(r, s, n - 1);
        let y = inner_upto(r, a, n - 1) + inner_upto(r, b, n - 1);
        let t = r[n - 1] * s[n - 1];
        let w = r[n - 1] * a[n - 1] + r[n - 1] * b[n - 1];
        assert(t % q == w % q) by {
            lemma_mul_mod_absorbs(r[n - 1], a[n - 1] + b[n - 1], q);
            let (rv, av, bv) = (r[n - 1], a[n - 1], b[n - 1]);
            assert(rv * (av + bv) == rv * av + rv * bv) by (nonlinear_arith);
        }
        lemma_add_mod_noop(x as int, t as int, q as int);
        lemma_add_mod_noop(y as int, w as int, q as int);
        assert(inner_upto(r, a, n) + inner_upto(r, b, n) == y + w);
    }
}

/// A dot product commutes with scaling the vector.
pub proof fn lemma_dot_of_scaled(r: Seq<nat>, a: Seq<nat>, s: nat, q: nat)
    requires
        q > 0,
        a.len() == r.len(),
    ensures
        dot(r, vec_scale(a, s, q), q) == mul_mod(dot(r, a, q), s, q),
{
    lemma_inner_of_scaled(r, a, s, q, r.len() as int);
    lemma_mul_mod_absorbs(inner_upto(r, a, r.len() as int), s, q);
}

proof fn lemma_inner_of_scaled(r: Seq<nat>, a: Seq<nat>, s: nat, q: nat, n: int)
    requires
        q > 0,
        a.len() == r.len(),
        0 <= n <= r.len(),
    ensures
        inner_upto(r, vec_scale(a, s, q), n) % q == (inner_upto(r, a, n) * s) % q,
    decreases n,
{
    if n > 0 {
        lemma_inner_of_scaled(r, a, s, q, n - 1);
        let c = vec_scale(a, s, q);
        let x = inner_upto(r, c, n - 1);
        let y = inner_upto(r, a, n - 1) * s;
        let t = r[n - 1] * c[n - 1];
        let w = r[n - 1] * a[n - 1] * s;
        assert(t % q == w % q) by {
            lemma_mul_mod_absorbs(r[n - 1], a[n - 1] * s, q);
            let (rv, av) = (r[n - 1], a[n - 1]);
            assert(rv * (av * s) == rv * av * s) by (nonlinear_arith);
        }
        lemma_add_mod_noop(x as int, t as int, q as int);
        lemma_add_mod_noop(y as int, w as int, q as int);
        let (whole, front, term) = (
            inner_upto(r, a, n),
            inner_upto(r, a, n - 1),
            r[n - 1] * a[n - 1],
        );
        assert(whole * s == front * s + term * s) by (nonlinear_arith)
            requires
                whole == front + term,
        ;
    } else {
        assert(inner_upto(r, a, n) * s == 0) by (nonlinear_arith)
            requires
                inner_upto(r, a, n) == 0,
        ;
    }
}

/// The product of a matrix with a sum of vectors is the sum of the
/// products.
pub proof fn lemma_mat_vec_of_sum(m: Seq<Seq<nat>>, a: Seq<nat>, b: Seq<nat>, q: nat)
    requires
        q > 0,
        a.len() == b.len(),
        reduced_rows(m, a.len(), q),
    ensures
        mat_vec(m, vec_add(a, b, q), q) == vec_add(mat_vec(m, a, q), mat_vec(m, b, q), q),
{
    assert forall|i: int| 0 <= i < m.len() implies mat_vec(m, vec_add(a, b, q), q)[i] == vec_add(
        mat_vec(m, a, q),
        mat_vec(m, b, q),
        q,
    )[i] by {
        lemma_dot_of_sum(m[i], a, b, q);
    }
    assert(mat_vec(m, vec_add(a, b, q), q) =~= vec_add(mat_vec(m, a, q), mat_vec(m, b, q), q));
}

/// The product of a matrix with a scaled vector is the scaled product.
pub proof fn lemma_mat_vec_of_scaled(m: Seq<Seq<nat>>, a: Seq<nat>, s: nat, q: nat)
    requires
        q > 0,
        reduced_rows(m, a.len(), q),
    ensures
        mat_vec(m, vec_scale(a, s, q), q) == vec_scale(mat_vec(m, a, q), s, q),
{
    assert forall|i: int| 0 <= i < m.len() implies mat_vec(m, vec_scale(a, s, q), q)[i]
        == vec_scale(mat_vec(m, a, q), s, q)[i] by {
        lemma_dot_of_scaled(m[i], a, s, q);
    }
    assert(mat_vec(m, vec_scale(a, s, q), q) =~= vec_scale(mat_vec(m, a, q), s, q));
}

/// Two vectors that differ in one place, where the row holds a one, have
/// different dot products with the row.
pub proof fn lemma_dot_tells_apart(row: Seq<nat>, u: Seq<nat>, v: Seq<nat>, j: int, q: nat)
    requires
        q > 0,
        u.len() == row.len(),
        v.len() == row.len(),
        0 <= j < row.len(),
        row[j] == 1,
        u[j] < q,
        v[j] < q,
        u[j] != v[j],
        forall|k: int| 0 <= k < row.len() && k != j ==> u[k] == v[k],
    ensures
        dot(row, u, q) != dot(row, v, q),
{
    lemma_inner_differs_at(row, u, v, j, row.len() as int);
    let a = inner_upto(row, u, row.len() as int) as int;
    let b = inner_upto(row, v, row.len() as int) as int;
    assert(a - b == u[j] - v[j]);
    if a % (q as int) == b % (q as int) {
        vstd::arithmetic::div_mod::lemma_mod_equivalence(a, b, q as int);
        if u[j] > v[j] {
            lemma_small_mod((u[j] - v[j]) as nat, q);
        } else {
            vstd::arithmetic::div_mod::lemma_fundamental_div_mod_converse(
                u[j] - v[j],
                q as int,
                -1,
                u[j] - v[j] + q,
            );
        }
    }
}

proof fn lemma_inner_differs_at(row: Seq<nat>, u: Seq<nat>, v: Seq<nat>, j: int, n: int)
    requires
        u.len() == row.len(),
        v.len() == row.len(),
        0 <= j < row.len(),
        0 <= n <= row.len(),
        row[j] == 1,
        forall|k: int| 0 <= k < row.len() && k != j ==> u[k] == v[k],
    ensures
        inner_upto(row, u, n) - inner_upto(row, v, n) == if n > j {
            u[j] - v[j]
        } else {
            0
        },
    decreases n,
{
    if n > 0 {
        lemma_inner_differs_at(row, u, v, j, n - 1);
        if n - 1 == j {
            assert(row[j] * u[j] == u[j]) by (nonlinear_arith)
                requires
                    row[j] == 1,
            ;
            assert(row[j] * v[j] == v[j]) by (nonlinear_arith)
                requires
                    row[j] == 1,
            ;
        }
    }
}

/// One more term of a sum, taken in the ring.
pub proof fn lemma_sum_step(u: Seq<nat>, n: int, q: nat)
    requires
        q > 0,
        0 <= n < u.len(),
    ensures
        add_mod(sum_upto(u, n) % q, u[n], q) == sum_upto(u, n + 1) % q,
{
    lemma_add_mod_absorbs(sum_upto(u, n), u[n], q);
}

/// One more term of a dot product, taken in the ring.
pub proof fn lemma_inner_step(u: Seq<nat>, v: Seq<nat>, n: int, q: nat)
    requires
        q > 0,
        0 <= n < u.len(),
    ensures
        add_mod(inner_upto(u, v, n) % q, mul_mod(u[n], v[n], q), q) == inner_upto(u, v, n + 1) % q,
{
    lemma_add_mod_absorbs(inner_upto(u, v, n), u[n] * v[n], q);
}

/// A partial dot product, taken in the ring, is reduced.
pub proof fn lemma_mod_range_of_dot(u: Seq<nat>, v: Seq<nat>, n: int, q: nat)
    requires
        q > 0,
    ensures
        inner_upto(u, v, n) % q < q,
{
    lemma_mod_range(inner_upto(u, v, n) as int, q);
}

} // verus!
