//! Evaluation of a rank-one constraint system on a witness.

use crate::element::{modulus, Element};
use crate::error::{ConstraintMatrix, Error};
use crate::linear::{mat_vec, mat_zero, vec_mul, vec_sub};
use crate::matrix::Matrix;
use crate::vector::Vector;
use vstd::prelude::*;

verus! {

/// Three matrices `A`, `B`, `C` that constrain a witness `w` by
/// `(A * w) . (B * w) - C * w`, the dot standing for the entrywise product.
pub struct R1CS<E: Element> {
    a: Matrix<E>,
    b: Matrix<E>,
    c: Matrix<E>,
}

impl<E: Element> R1CS<E> {
    /// The matrix `A`.
    pub closed spec fn spec_a(&self) -> Matrix<E> {
        self.a
    }

    /// The matrix `B`.
    pub closed spec fn spec_b(&self) -> Matrix<E> {
        self.b
    }

    /// The matrix `C`.
    pub closed spec fn spec_c(&self) -> Matrix<E> {
        self.c
    }

    /// The three matrices are well formed.
    pub open spec fn wf(&self) -> bool {
        &&& self.spec_a().wf()
        &&& self.spec_b().wf()
        &&& self.spec_c().wf()
    }

    /// The three matrices have the same shape.
    pub open spec fn consistent(&self) -> bool {
        &&& self.spec_b().spec_height() == self.spec_a().spec_height()
        &&& self.spec_b().spec_width() == self.spec_a().spec_width()
        &&& self.spec_c().spec_height() == self.spec_a().spec_height()
        &&& self.spec_c().spec_width() == self.spec_a().spec_width()
    }

    /// The value of the system on a witness.
    pub open spec fn evaluation(&self, witness: Seq<nat>) -> Seq<nat> {
        let q = modulus::<E>();
        vec_sub(
            vec_mul(mat_vec(self.spec_a()@, witness, q), mat_vec(self.spec_b()@, witness, q), q),
            mat_vec(self.spec_c()@, witness, q),
            q,
        )
    }

    /// The system of the given shape whose three matrices hold zeros.
    pub fn identity(width: usize, height: usize) -> (r: Self)
        ensures
            r.wf(),
            r.consistent(),
            r.spec_a()@ == mat_zero(width as nat, height as nat),
            r.spec_b()@ == mat_zero(width as nat, height as nat),
            r.spec_c()@ == mat_zero(width as nat, height as nat),
            r.spec_a().spec_width() == width,
            r.spec_a().spec_height() == height,
    {
        let v: Matrix<E> = Matrix::new(width, height);
        Self { a: v.clone(), b: v.clone(), c: v }
    }

    /// The system of three given matrices.
    pub fn new(a: Matrix<E>, b: Matrix<E>, c: Matrix<E>) -> (r: Self)
        ensures
            r.spec_a() == a,
            r.spec_b() == b,
            r.spec_c() == c,
    {
        Self { a, b, c }
    }

    /// Evaluates the system on a witness: `(A * w) . (B * w) - C * w`. It
    /// fails where the three matrices do not share one shape.
    pub fn eval(&self, witness: &Vector<E>) -> (r: Result<Vector<E>, Error>)
        requires
            self.wf(),
            witness.wf(),
            self.consistent() ==> witness@.len() == self.spec_a().spec_width(),
        ensures
            r is Ok <==> self.consistent(),
            match r {
                Ok(value) => value@ == self.evaluation(witness@) && value.wf(),
                Err(failure) => failure == self.mismatch(),
            },
    {
        match self.assert_consistency() {
            Ok(()) => {},
            Err(failure) => {
                return Err(failure);
            },
        }
        let ab: Vector<E> = self.a.mul_vector(witness).mul(&self.b.mul_vector(witness));
        let c: Vector<E> = self.c.mul_vector(witness);
        Ok(ab.sub(&c))
    }

    /// The shape of the system, as (rows, columns): that of its matrix `A`.
    pub fn dimension(&self) -> (d: (usize, usize))
        ensures
            d.0 == self.spec_a().spec_height(),
            d.1 == self.spec_a().spec_width(),
    {
        self.a.dimension()
    }

    /// The failure that an inconsistent system reports: the shape of `A`
    /// and the first matrix, `B` or else `C`, whose shape differs from it.
    pub open spec fn mismatch(&self) -> Error {
        let expected = (
            self.spec_a().spec_height() as usize,
            self.spec_a().spec_width() as usize,
        );
        let of_b = (self.spec_b().spec_height() as usize, self.spec_b().spec_width() as usize);
        let of_c = (self.spec_c().spec_height() as usize, self.spec_c().spec_width() as usize);
        if of_b != expected {
            Error::DimensionMismatch { matrix: ConstraintMatrix::B, expected, got: of_b }
        } else {
            Error::DimensionMismatch { matrix: ConstraintMatrix::C, expected, got: of_c }
        }
    }

    /// Checks that the three matrices share one shape.
    pub fn assert_consistency(&self) -> (r: Result<(), Error>)
        ensures
            r is Ok <==> self.consistent(),
            r matches Err(failure) ==> failure == self.mismatch(),
    {
        let dimension: (usize, usize) = self.a.dimension();
        let of_b: (usize, usize) = self.b.dimension();
        if of_b.0 != dimension.0 || of_b.1 != dimension.1 {
            return Err(
                Error::DimensionMismatch {
                    matrix: ConstraintMatrix::B,
                    expected: dimension,
                    got: of_b,
                },
            );
        }
        let of_c: (usize, usize) = self.c.dimension();
        if of_c.0 != dimension.0 || of_c.1 != dimension.1 {
            return Err(
                Error::DimensionMismatch {
                    matrix: ConstraintMatrix::C,
                    expected: dimension,
                    got: of_c,
                },
            );
        }
        Ok(())
    }
}

} // verus!
