//! Dense matrices of ring elements, stored row by row.

use crate::element::{modulus, Element};
use crate::linear::{
    common_len, dot, dot_leading, inner_upto, lemma_entrywise_reduced, lemma_inner_step,
    lemma_mat_vec_leading_is_mat_vec, lemma_mat_vec_leading_shape, lemma_mod_range_of_dot,
    mat_add, mat_beside, mat_identity, mat_mul, mat_vec, mat_vec_leading, mat_zero, reduced,
    reduced_rows, vec_add, vec_mul, zeros,
};
use crate::vector::{values, Vector};
use rand::rngs::StdRng;
use vstd::prelude::*;
use vstd::std_specs::cmp::PartialEqSpecImpl;

verus! {

/// A matrix of `height` rows and `width` columns over the ring `E`. Its
/// shape is fixed when it is made.
#[derive(Debug)]
pub struct Matrix<E: Element> {
    width: usize,
    height: usize,
    entries: Vec<Vector<E>>,
}

impl<E: Element> View for Matrix<E> {
    type V = Seq<Seq<nat>>;

    /// The rows, each as the values of its entries.
    open spec fn view(&self) -> Seq<Seq<nat>> {
        Seq::new(self.rows().len(), |i: int| self.rows()[i]@)
    }
}

/// The dot product of a row with a vector of the same length.
fn dot_product<E: Element>(row: &Vector<E>, rhs: &Vector<E>) -> (sum: E)
    requires
        row.wf(),
        rhs.wf(),
        row@.len() == rhs@.len(),
    ensures
        sum.value() == dot(row@, rhs@, modulus::<E>()),
        sum.value() < E::CARDINALITY,
{
    let n: usize = row.len();
    let mut sum: E = E::zero();
    let mut j: usize = 0;
    proof {
        E::lemma_parameters();
        vstd::arithmetic::div_mod::lemma_small_mod(0, modulus::<E>());
    }
    while j < n
        invariant
            j <= n,
            n == row@.len(),
            n == rhs@.len(),
            row.wf(),
            rhs.wf(),
            E::CARDINALITY >= 2,
            sum.value() == inner_upto(row@, rhs@, j as int) % modulus::<E>(),
        decreases n - j,
    {
        proof {
            lemma_inner_step(row@, rhs@, j as int, modulus::<E>());
            lemma_mod_range_of_dot(row@, rhs@, j as int, modulus::<E>());
            assert(row@[j as int] < modulus::<E>());
            assert(rhs@[j as int] < modulus::<E>());
        }
        let a: E = *row.index(j);
        let b: E = *rhs.index(j);
        sum = sum.add(a.mul(b));
        j += 1;
    }
    sum
}

/// The dot product of a row with a vector over the places that both
/// have.
fn dot_product_leading<E: Element>(row: &Vector<E>, rhs: &Vector<E>) -> (sum: E)
    requires
        row.wf(),
        rhs.wf(),
    ensures
        sum.value() == dot_leading(row@, rhs@, modulus::<E>()),
        sum.value() < E::CARDINALITY,
{
    let n: usize = if row.len() <= rhs.len() {
        row.len()
    } else {
        rhs.len()
    };
    let mut sum: E = E::zero();
    let mut j: usize = 0;
    proof {
        E::lemma_parameters();
        vstd::arithmetic::div_mod::lemma_small_mod(0, modulus::<E>());
    }
    while j < n
        invariant
            j <= n,
            n == common_len(row@, rhs@),
            row.wf(),
            rhs.wf(),
            E::CARDINALITY >= 2,
            sum.value() == inner_upto(row@, rhs@, j as int) % modulus::<E>(),
        decreases n - j,
    {
        proof {
            lemma_inner_step(row@, rhs@, j as int, modulus::<E>());
            lemma_mod_range_of_dot(row@, rhs@, j as int, modulus::<E>());
            assert(row@[j as int] < modulus::<E>());
            assert(rhs@[j as int] < modulus::<E>());
        }
        let a: E = *row.index(j);
        let b: E = *rhs.index(j);
        sum = sum.add(a.mul(b));
        j += 1;
    }
    sum
}

impl<E: Element> Matrix<E> {
    /// The rows, in order.
    pub closed spec fn rows(&self) -> Seq<Vector<E>> {
        self.entries@
    }

    /// Number of columns.
    pub closed spec fn spec_width(&self) -> nat {
        self.width as nat
    }

    /// Number of rows.
    pub closed spec fn spec_height(&self) -> nat {
        self.height as nat
    }

    /// The matrix holds as many rows as its height says, each as long as
    /// its width says, and every entry is reduced.
    pub open spec fn wf(&self) -> bool {
        &&& self@.len() == self.spec_height()
        &&& reduced_rows(self@, self.spec_width(), modulus::<E>())
    }

    /// The matrix of the given shape that holds zeros.
    pub fn new(width: usize, height: usize) -> (r: Self)
        ensures
            r@ == mat_zero(width as nat, height as nat),
            r.spec_width() == width,
            r.spec_height() == height,
            r.wf(),
    {
        let mut entries: Vec<Vector<E>> = Vec::new();
        let mut i: usize = 0;
        while i < height
            invariant
                i <= height,
                entries@.len() == i,
                forall|k: int| 0 <= k < i ==> (#[trigger] entries@[k])@ == zeros(width as nat),
            decreases height - i,
        {
            entries.push(Vector::new(width));
            i += 1;
        }
        let r = Self { width, height, entries };
        proof {
            E::lemma_parameters();
            assert(r@ =~= mat_zero(width as nat, height as nat));
        }
        r
    }

    /// The zero matrix of the given shape, as [`Matrix::new`] makes it.
    pub fn zero(width: usize, height: usize) -> (r: Self)
        ensures
            r@ == mat_zero(width as nat, height as nat),
            r.spec_width() == width,
            r.spec_height() == height,
            r.wf(),
    {
        Self::new(width, height)
    }

    /// The matrix with the given rows, each of them `width` entries long.
    pub fn from_rows(width: usize, rows: Vec<Vector<E>>) -> (r: Self)
        requires
            forall|i: int|
                0 <= i < rows@.len() ==> (#[trigger] rows@[i]).wf() && rows@[i]@.len() == width,
        ensures
            r.rows() == rows@,
            r.spec_width() == width,
            r.spec_height() == rows@.len(),
            r.wf(),
    {
        let height: usize = rows.len();
        Self { width, height, entries: rows }
    }

    /// The square matrix with ones on the diagonal and zeros elsewhere.
    pub fn identity(n: usize) -> (r: Self)
        ensures
            r@ == mat_identity(n as nat),
            r.spec_width() == n,
            r.spec_height() == n,
            r.wf(),
    {
        let mut entries: Vec<Vector<E>> = Vec::new();
        let mut i: usize = 0;
        while i < n
            invariant
                i <= n,
                entries@.len() == i,
                forall|k: int|
                    0 <= k < i ==> (#[trigger] entries@[k])@ == mat_identity(n as nat)[k],
            decreases n - i,
        {
            let mut row: Vector<E> = Vector::new(n);
            row.set(i, E::one());
            assert(row@ =~= mat_identity(n as nat)[i as int]);
            entries.push(row);
            i += 1;
        }
        let r = Self { width: n, height: n, entries };
        proof {
            E::lemma_parameters();
            assert(r@ =~= mat_identity(n as nat));
        }
        r
    }

    /// A matrix of the given shape, every entry drawn from the generator.
    pub fn random(width: usize, height: usize, rng: &mut StdRng) -> (r: Self)
        ensures
            r.spec_width() == width,
            r.spec_height() == height,
            r.wf(),
    {
        let mut entries: Vec<Vector<E>> = Vec::new();
        let mut i: usize = 0;
        while i < height
            invariant
                i <= height,
                entries@.len() == i,
                forall|k: int|
                    0 <= k < i ==> (#[trigger] entries@[k]).wf() && entries@[k]@.len() == width,
            decreases height - i,
        {
            entries.push(Vector::random(width, rng));
            i += 1;
        }
        Self { width, height, entries }
    }

    /// The matrix whose rows are the rows of `self`, each followed by the
    /// row of `other` at the same height.
    pub fn compose_horizontal(self, other: Self) -> (r: Self)
        requires
            self.wf(),
            other.wf(),
            self.spec_height() == other.spec_height(),
            self.spec_width() + other.spec_width() <= usize::MAX,
        ensures
            r@ == mat_beside(self@, other@),
            r.spec_width() == self.spec_width() + other.spec_width(),
            r.spec_height() == self.spec_height(),
            r.wf(),
    {
        let mut entries: Vec<Vector<E>> = Vec::new();
        let mut i: usize = 0;
        while i < self.height
            invariant
                self.wf(),
                other.wf(),
                self.spec_height() == other.spec_height(),
                i <= self.height,
                entries@.len() == i,
                forall|k: int| 0 <= k < i ==> (#[trigger] entries@[k])@ == self@[k] + other@[k],
            decreases self.height - i,
        {
            let left: &Vector<E> = &self.entries[i];
            let right: &Vector<E> = &other.entries[i];
            assert(left@ == self@[i as int]);
            assert(right@ == other@[i as int]);
            let mut row: Vec<E> = Vec::new();
            let mut j: usize = 0;
            while j < left.len()
                invariant
                    j <= left@.len(),
                    row@.len() == j,
                    forall|k: int| 0 <= k < j ==> (#[trigger] row@[k]).value() == left@[k],
                decreases left@.len() - j,
            {
                row.push(*left.index(j));
                j += 1;
            }
            let mut j: usize = 0;
            while j < right.len()
                invariant
                    j <= right@.len(),
                    row@.len() == left@.len() + j,
                    forall|k: int|
                        0 <= k < left@.len() ==> (#[trigger] row@[k]).value() == left@[k],
                    forall|k: int|
                        left@.len() <= k < left@.len() + j ==> (#[trigger] row@[k]).value()
                            == right@[k - left@.len()],
                decreases right@.len() - j,
            {
                row.push(*right.index(j));
                j += 1;
            }
            let joined: Vector<E> = Vector::from(row);
            assert(joined@ =~= left@ + right@);
            entries.push(joined);
            i += 1;
        }
        let r = Self { width: self.width + other.width, height: self.height, entries };
        proof {
            assert(r@ =~= mat_beside(self@, other@));
            assert forall|k: int| 0 <= k < r@.len() implies (#[trigger] r@[k]).len()
                == r.spec_width() && reduced(r@[k], modulus::<E>()) by {
                assert(self@[k].len() == self.spec_width());
                assert(other@[k].len() == other.spec_width());
                assert forall|c: int| 0 <= c < r@[k].len() implies #[trigger] r@[k][c] < modulus::<
                    E,
                >() by {
                    if c < self@[k].len() {
                        assert(r@[k][c] == self@[k][c]);
                    } else {
                        assert(r@[k][c] == other@[k][c - self@[k].len()]);
                    }
                }
            }
        }
        r
    }

    /// The shape of the matrix, as (rows, columns).
    pub fn dimension(&self) -> (d: (usize, usize))
        ensures
            d.0 == self.spec_height(),
            d.1 == self.spec_width(),
    {
        (self.height, self.width)
    }

    /// Number of columns.
    pub fn width(&self) -> (w: usize)
        ensures
            w == self.spec_width(),
    {
        self.width
    }

    /// Number of rows.
    pub fn height(&self) -> (h: usize)
        ensures
            h == self.spec_height(),
    {
        self.height
    }

    /// The row at `index`.
    pub fn row(&self, index: usize) -> (r: &Vector<E>)
        requires
            self.wf(),
            index < self.spec_height(),
        ensures
            *r == self.rows()[index as int],
            r@ == self@[index as int],
            r.wf(),
            r@.len() == self.spec_width(),
    {
        assert(self@[index as int].len() == self.spec_width());
        &self.entries[index]
    }

    /// Adds `rhs`, entry by entry.
    pub fn add_assign(&mut self, rhs: &Self)
        requires
            old(self).wf(),
            rhs.wf(),
            old(self).spec_width() == rhs.spec_width(),
            old(self).spec_height() == rhs.spec_height(),
        ensures
            final(self)@ == mat_add(old(self)@, rhs@, modulus::<E>()),
            final(self).spec_width() == old(self).spec_width(),
            final(self).spec_height() == old(self).spec_height(),
            final(self).wf(),
    {
        let mut entries: Vec<Vector<E>> = Vec::new();
        let mut i: usize = 0;
        while i < self.height
            invariant
                *self == *old(self),
                self.wf(),
                rhs.wf(),
                self.spec_width() == rhs.spec_width(),
                self.spec_height() == rhs.spec_height(),
                i <= self.height,
                entries@.len() == i,
                forall|k: int|
                    0 <= k < i ==> (#[trigger] entries@[k])@ == vec_add(
                        self@[k],
                        rhs@[k],
                        modulus::<E>(),
                    ),
            decreases self.height - i,
        {
            assert(self@[i as int].len() == self.spec_width());
            assert(rhs@[i as int].len() == rhs.spec_width());
            let row: Vector<E> = self.entries[i].clone().add(&rhs.entries[i]);
            entries.push(row);
            i += 1;
        }
        self.entries = entries;
        proof {
            E::lemma_parameters();
            assert(self@ =~= mat_add(old(self)@, rhs@, modulus::<E>()));
            assert forall|k: int| 0 <= k < self@.len() implies (#[trigger] self@[k]).len()
                == self.spec_width() && reduced(self@[k], modulus::<E>()) by {
                assert(old(self)@[k].len() == self.spec_width());
                lemma_entrywise_reduced(old(self)@[k], rhs@[k], 0, modulus::<E>());
            }
        }
    }

    /// The entrywise sum of the matrix and `rhs`.
    pub fn add(self, rhs: &Self) -> (r: Self)
        requires
            self.wf(),
            rhs.wf(),
            self.spec_width() == rhs.spec_width(),
            self.spec_height() == rhs.spec_height(),
        ensures
            r@ == mat_add(self@, rhs@, modulus::<E>()),
            r.spec_width() == self.spec_width(),
            r.spec_height() == self.spec_height(),
            r.wf(),
    {
        let mut out: Self = self;
        out.add_assign(rhs);
        out
    }

    /// Multiplies by `rhs`, entry by entry.
    pub fn mul_assign(&mut self, rhs: &Self)
        requires
            old(self).wf(),
            rhs.wf(),
            old(self).spec_width() == rhs.spec_width(),
            old(self).spec_height() == rhs.spec_height(),
        ensures
            final(self)@ == mat_mul(old(self)@, rhs@, modulus::<E>()),
            final(self).spec_width() == old(self).spec_width(),
            final(self).spec_height() == old(self).spec_height(),
            final(self).wf(),
    {
        let mut entries: Vec<Vector<E>> = Vec::new();
        let mut i: usize = 0;
        while i < self.height
            invariant
                *self == *old(self),
                self.wf(),
                rhs.wf(),
                self.spec_width() == rhs.spec_width(),
                self.spec_height() == rhs.spec_height(),
                i <= self.height,
                entries@.len() == i,
                forall|k: int|
                    0 <= k < i ==> (#[trigger] entries@[k])@ == vec_mul(
                        self@[k],
                        rhs@[k],
                        modulus::<E>(),
                    ),
            decreases self.height - i,
        {
            assert(self@[i as int].len() == self.spec_width());
            assert(rhs@[i as int].len() == rhs.spec_width());
            let row: Vector<E> = self.entries[i].clone().mul(&rhs.entries[i]);
            entries.push(row);
            i += 1;
        }
        self.entries = entries;
        proof {
            E::lemma_parameters();
            assert(self@ =~= mat_mul(old(self)@, rhs@, modulus::<E>()));
            assert forall|k: int| 0 <= k < self@.len() implies (#[trigger] self@[k]).len()
                == self.spec_width() && reduced(self@[k], modulus::<E>()) by {
                assert(old(self)@[k].len() == self.spec_width());
                lemma_entrywise_reduced(old(self)@[k], rhs@[k], 0, modulus::<E>());
            }
        }
    }

    /// The entrywise product of the matrix and `rhs`.
    pub fn mul(self, rhs: &Self) -> (r: Self)
        requires
            self.wf(),
            rhs.wf(),
            self.spec_width() == rhs.spec_width(),
            self.spec_height() == rhs.spec_height(),
        ensures
            r@ == mat_mul(self@, rhs@, modulus::<E>()),
            r.spec_width() == self.spec_width(),
            r.spec_height() == self.spec_height(),
            r.wf(),
    {
        let mut out: Self = self;
        out.mul_assign(rhs);
        out
    }

    /// The product of the matrix and a vector: for each row, the dot
    /// product of the row and the vector. It has one entry for each row.
    pub fn mul_vector(&self, rhs: &Vector<E>) -> (r: Vector<E>)
        requires
            self.wf(),
            rhs.wf(),
            rhs@.len() == self.spec_width(),
        ensures
            r@ == mat_vec(self@, rhs@, modulus::<E>()),
            r@.len() == self.spec_height(),
            r.wf(),
    {
        let mut out: Vec<E> = Vec::new();
        let mut i: usize = 0;
        while i < self.height
            invariant
                self.wf(),
                rhs.wf(),
                rhs@.len() == self.spec_width(),
                i <= self.height,
                out@.len() == i,
                forall|k: int|
                    0 <= k < i ==> (#[trigger] out@[k]).value() == dot(
                        self@[k],
                        rhs@,
                        modulus::<E>(),
                    ),
            decreases self.height - i,
        {
            assert(self@[i as int].len() == self.spec_width());
            out.push(dot_product(&self.entries[i], rhs));
            i += 1;
        }
        let r: Vector<E> = Vector::from(out);
        proof {
            E::lemma_parameters();
            assert(r@ =~= mat_vec(self@, rhs@, modulus::<E>()));
            crate::linear::lemma_mat_vec_shape(self@, rhs@, modulus::<E>());
        }
        r
    }
}

impl<E: Element> Matrix<E> {
    /// The product of the matrix and a vector of any length: for each row,
    /// the sum of the products of the row's entries with the vector's, over
    /// the places that both have. A vector shorter than the matrix is wide
    /// meets the columns `0 .. rhs.len()` only; the columns behind them are
    /// not read.
    pub fn mul_vector_leading(&self, rhs: &Vector<E>) -> (r: Vector<E>)
        requires
            self.wf(),
            rhs.wf(),
        ensures
            r@ == mat_vec_leading(self@, rhs@, modulus::<E>()),
            r@.len() == self.spec_height(),
            r.wf(),
            rhs@.len() == self.spec_width() ==> r@ == mat_vec(self@, rhs@, modulus::<E>()),
    {
        let mut out: Vec<E> = Vec::new();
        let mut i: usize = 0;
        while i < self.height
            invariant
                self.wf(),
                rhs.wf(),
                i <= self.height,
                out@.len() == i,
                forall|k: int|
                    0 <= k < i ==> (#[trigger] out@[k]).value() == dot_leading(
                        self@[k],
                        rhs@,
                        modulus::<E>(),
                    ),
            decreases self.height - i,
        {
            assert(self@[i as int].len() == self.spec_width());
            out.push(dot_product_leading(&self.entries[i], rhs));
            i += 1;
        }
        let r: Vector<E> = Vector::from(out);
        proof {
            E::lemma_parameters();
            assert(r@ =~= mat_vec_leading(self@, rhs@, modulus::<E>()));
            lemma_mat_vec_leading_shape(self@, rhs@, modulus::<E>());
            if rhs@.len() == self.spec_width() {
                lemma_mat_vec_leading_is_mat_vec(self@, rhs@, modulus::<E>());
            }
        }
        r
    }
}

impl<E: Element> Clone for Matrix<E> {
    /// A matrix of the same shape with the same entries.
    fn clone(&self) -> (r: Self)
        ensures
            r@ == self@,
            r.spec_width() == self.spec_width(),
            r.spec_height() == self.spec_height(),
            r.wf() == self.wf(),
    {
        let mut entries: Vec<Vector<E>> = Vec::new();
        let mut i: usize = 0;
        while i < self.entries.len()
            invariant
                i <= self.entries@.len(),
                entries@.len() == i,
                forall|k: int| 0 <= k < i ==> (#[trigger] entries@[k])@ == self.entries@[k]@,
            decreases self.entries@.len() - i,
        {
            entries.push(self.entries[i].clone());
            i += 1;
        }
        let r = Self { width: self.width, height: self.height, entries };
        assert(r@ =~= self@);
        r
    }
}

impl<E: Element> PartialEq for Matrix<E> {
    /// Two matrices are equal when they have the same shape and, place by
    /// place, entries of the same value.
    fn eq(&self, other: &Self) -> (r: bool) {
        if self.width != other.width || self.height != other.height {
            return false;
        }
        if self.entries.len() != other.entries.len() {
            assert(self@.len() != other@.len());
            return false;
        }
        let mut i: usize = 0;
        while i < self.entries.len()
            invariant
                i <= self.entries@.len(),
                self.entries@.len() == other.entries@.len(),
                forall|k: int| 0 <= k < i ==> self@[k] == other@[k],
            decreases self.entries@.len() - i,
        {
            if !(self.entries[i] == other.entries[i]) {
                assert(self@[i as int] != other@[i as int]);
                return false;
            }
            i += 1;
        }
        assert(self@ =~= other@);
        true
    }
}

impl<E: Element> PartialEqSpecImpl for Matrix<E> {
    open spec fn obeys_eq_spec() -> bool {
        true
    }

    open spec fn eq_spec(&self, other: &Self) -> bool {
        &&& self.spec_width() == other.spec_width()
        &&& self.spec_height() == other.spec_height()
        &&& self@ == other@
    }
}

} // verus!
