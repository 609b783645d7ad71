//! Commitments based on the short-integer-solution problem over a scalar
//! ring. Committed values should be short: of low norm, such as the digits
//! of a decomposed element.

use crate::element::{modulus, Element};
use crate::linear::{
    lemma_mat_vec_of_scaled, lemma_mat_vec_of_sum, mat_vec, reduced_rows, vec_add, vec_mul,
    vec_scale,
};
use crate::matrix::Matrix;
use crate::vector::Vector;
use rand::rngs::StdRng;
use vstd::prelude::*;

verus! {

/// A commitment to a vector: the lattice, the committed vector itself, and
/// the commitment vector, which is the image of the committed vector under
/// the lattice.
#[derive(Debug)]
pub struct SISScalar<E: Element> {
    lattice: Matrix<E>,
    secret: Vector<E>,
    pub commitment: Vector<E>,
}

/// The sum of two commitment vectors over one lattice is the commitment
/// vector of the sum of the committed vectors.
pub proof fn lemma_additively_homomorphic(
    lattice: Seq<Seq<nat>>,
    a: Seq<nat>,
    b: Seq<nat>,
    q: nat,
)
    requires
        q > 0,
        a.len() == b.len(),
        reduced_rows(lattice, a.len(), q),
    ensures
        vec_add(mat_vec(lattice, a, q), mat_vec(lattice, b, q), q) == mat_vec(
            lattice,
            vec_add(a, b, q),
            q,
        ),
{
    lemma_mat_vec_of_sum(lattice, a, b, q);
}

/// A commitment vector scaled by `s` is the commitment vector of the
/// committed vector scaled by `s`.
pub proof fn lemma_scalar_homomorphic(lattice: Seq<Seq<nat>>, a: Seq<nat>, s: nat, q: nat)
    requires
        q > 0,
        reduced_rows(lattice, a.len(), q),
    ensures
        vec_scale(mat_vec(lattice, a, q), s, q) == mat_vec(lattice, vec_scale(a, s, q), q),
{
    lemma_mat_vec_of_scaled(lattice, a, s, q);
}

impl<E: Element> SISScalar<E> {
    /// The lattice that the commitment was made over.
    pub closed spec fn spec_lattice(&self) -> Matrix<E> {
        self.lattice
    }

    /// The vector that was committed to.
    pub closed spec fn spec_secret(&self) -> Vector<E> {
        self.secret
    }

    /// The commitment vector.
    pub closed spec fn spec_commitment(&self) -> Vector<E> {
        self.commitment
    }

    /// Lattice, secret and commitment vector are well formed, and the
    /// commitment vector has one entry for each row of the lattice.
    pub open spec fn wf(&self) -> bool {
        &&& self.spec_lattice().wf()
        &&& self.spec_secret().wf()
        &&& self.spec_commitment().wf()
        &&& self.spec_commitment()@.len() == self.spec_lattice().spec_height()
    }

    /// Commits to `val`: the commitment vector is `lattice * val`. Where
    /// no lattice is given, a random one is made, as wide as `val` is long
    /// and `BIT_WIDTH` times as high. Where one is given, nothing is drawn
    /// and the generator stays as it is.
    pub fn commit(val: Vector<E>, lattice: Option<Matrix<E>>, rng: &mut StdRng) -> (c: Self)
        requires
            val.wf(),
            match lattice {
                Some(given) => given.wf() && given.spec_width() == val@.len(),
                None => val@.len() * E::BIT_WIDTH <= usize::MAX,
            },
        ensures
            c.wf(),
            c.spec_secret()@ == val@,
            c.spec_commitment()@ == mat_vec(c.spec_lattice()@, val@, modulus::<E>()),
            match lattice {
                Some(given) => c.spec_lattice() == given,
                None => c.spec_lattice().spec_width() == val@.len()
                    && c.spec_lattice().spec_height() == val@.len() * E::BIT_WIDTH,
            },
            lattice is Some ==> *final(rng) == *old(rng),
    {
        let element_len: usize = val.len();
        let lattice: Matrix<E> = match lattice {
            Some(given) => given,
            None => {
                let height: usize = element_len * E::BIT_WIDTH;
                Matrix::<E>::random(element_len, height, rng)
            },
        };
        let commitment: Vector<E> = lattice.mul_vector(&val);
        Self { secret: val, commitment, lattice }
    }

    /// The lattice that the commitment was made over.
    pub fn lattice(&self) -> (l: &Matrix<E>)
        ensures
            *l == self.spec_lattice(),
    {
        &self.lattice
    }

    /// The vector that was committed to.
    pub fn secret(&self) -> (s: &Vector<E>)
        ensures
            *s == self.spec_secret(),
    {
        &self.secret
    }

    /// The commitment vector.
    pub fn commitment(&self) -> (c: &Vector<E>)
        ensures
            *c == self.spec_commitment(),
    {
        &self.commitment
    }

    /// Adds the commitment vector of `rhs`. Lattice and secret of `self`
    /// stay. The result is the commitment vector of the sum of the two
    /// committed vectors provided `rhs` was made over the same lattice.
    pub fn add_assign(&mut self, rhs: &Self)
        requires
            old(self).wf(),
            rhs.wf(),
            old(self).spec_commitment()@.len() == rhs.spec_commitment()@.len(),
        ensures
            final(self).wf(),
            final(self).spec_lattice() == old(self).spec_lattice(),
            final(self).spec_secret() == old(self).spec_secret(),
            final(self).spec_commitment()@ == vec_add(
                old(self).spec_commitment()@,
                rhs.spec_commitment()@,
                modulus::<E>(),
            ),
    {
        self.commitment.add_assign(&rhs.commitment);
    }

    /// The commitment with the commitment vector of `rhs` added.
    pub fn add(self, rhs: &Self) -> (r: Self)
        requires
            self.wf(),
            rhs.wf(),
            self.spec_commitment()@.len() == rhs.spec_commitment()@.len(),
        ensures
            r.wf(),
            r.spec_lattice() == self.spec_lattice(),
            r.spec_secret() == self.spec_secret(),
            r.spec_commitment()@ == vec_add(self.spec_commitment()@, rhs.spec_commitment()@, modulus::<E>()),
    {
        let mut out: Self = self;
        out.add_assign(rhs);
        out
    }

    /// Multiplies the commitment vector by the scalar `rhs`, which stands
    /// for scaling the committed vector.
    pub fn scale_assign(&mut self, rhs: E)
        requires
            old(self).wf(),
            rhs.value() < E::CARDINALITY,
        ensures
            final(self).wf(),
            final(self).spec_lattice() == old(self).spec_lattice(),
            final(self).spec_secret() == old(self).spec_secret(),
            final(self).spec_commitment()@ == vec_scale(
                old(self).spec_commitment()@,
                rhs.value(),
                modulus::<E>(),
            ),
    {
        self.commitment.scale_assign(rhs);
    }

    /// The commitment with its commitment vector multiplied by the scalar
    /// `rhs`.
    pub fn scale(self, rhs: E) -> (r: Self)
        requires
            self.wf(),
            rhs.value() < E::CARDINALITY,
        ensures
            r.wf(),
            r.spec_lattice() == self.spec_lattice(),
            r.spec_secret() == self.spec_secret(),
            r.spec_commitment()@ == vec_scale(self.spec_commitment()@, rhs.value(), modulus::<E>()),
    {
        let mut out: Self = self;
        out.scale_assign(rhs);
        out
    }

    /// Multiplies the commitment vector by `rhs`, entry by entry.
    pub fn mul_assign(&mut self, rhs: &Vector<E>)
        requires
            old(self).wf(),
            rhs.wf(),
            old(self).spec_commitment()@.len() == rhs@.len(),
        ensures
            final(self).wf(),
            final(self).spec_lattice() == old(self).spec_lattice(),
            final(self).spec_secret() == old(self).spec_secret(),
            final(self).spec_commitment()@ == vec_mul(old(self).spec_commitment()@, rhs@, modulus::<E>()),
    {
        self.commitment.mul_assign(rhs);
    }

    /// The commitment with its commitment vector multiplied by `rhs`, entry
    /// by entry.
    pub fn mul(self, rhs: &Vector<E>) -> (r: Self)
        requires
            self.wf(),
            rhs.wf(),
            self.spec_commitment()@.len() == rhs@.len(),
        ensures
            r.wf(),
            r.spec_lattice() == self.spec_lattice(),
            r.spec_secret() == self.spec_secret(),
            r.spec_commitment()@ == vec_mul(self.spec_commitment()@, rhs@, modulus::<E>()),
    {
        let mut out: Self = self;
        out.mul_assign(rhs);
        out
    }
}

impl<E: Element> Clone for SISScalar<E> {
    /// A commitment with the same lattice, secret and commitment vector.
    fn clone(&self) -> (r: Self)
        ensures
            r.spec_lattice()@ == self.spec_lattice()@,
            r.spec_lattice().spec_width() == self.spec_lattice().spec_width(),
            r.spec_lattice().spec_height() == self.spec_lattice().spec_height(),
            r.spec_secret()@ == self.spec_secret()@,
            r.spec_commitment()@ == self.spec_commitment()@,
            r.wf() == self.wf(),
    {
        Self {
            lattice: self.lattice.clone(),
            secret: self.secret.clone(),
            commitment: self.commitment.clone(),
        }
    }
}

} // verus!
