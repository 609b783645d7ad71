//! Commitments after Baum, Damgard, Lyubashevsky, Oechsner and Peikert,
//! over a scalar ring: a hiding commitment to zero under a first lattice,
//! stacked on a binding commitment to the message under a second.
//!
//! The secret has two parts. `r_1` is as long as the first lattice is wide.
//! `r_2` is as long as the message, which is shorter than the second
//! lattice is wide: the product `A_2 * r_2` therefore meets the first
//! columns of `A_2` only, as many as `r_2` has entries. In a lattice pair
//! made by [`BDLOPScalar::lattice_for`] for a ring of two bits or more
//! those columns all lie in the block of zeros, so that `c_2` is the
//! message itself ([`lemma_second_commitment_of_pair`]). `c_2` masks the
//! message only over lattices whose leading columns are not all zero, as
//! those for a ring of one bit are.

use crate::element::{modulus, Element};
use crate::error::Error;
use crate::linear::{
    common_len, lemma_dot_tells_apart, lemma_inner_of_zeros, lemma_mat_vec_leading_shape,
    lemma_vec_add_then_sub_left, mat_identity, mat_vec, mat_vec_leading, reduced, vec_add,
    vec_sub, zeros,
};
use crate::modular::lemma_add_mod_value;
use crate::matrix::Matrix;
use crate::vector::Vector;
use rand::rngs::StdRng;
use vstd::prelude::*;

verus! {

/// A hash function whose digest is an element of the ring.
pub trait ElementHasher<E: Element> {
    /// The digest of what was written so far.
    fn finish(&self) -> E;

    /// Feeds bytes to the hash function.
    fn write(&mut self, bytes: &[u8]);
}

/// Height of the first lattice for messages of `msg_len` entries over a
/// ring of `bit_width` bits: one row per bit of the message, less the rows
/// that the second lattice adds.
pub open spec fn first_height(msg_len: nat, bit_width: nat) -> nat {
    (msg_len * bit_width - msg_len) as nat
}

/// Width of both lattices: the height of the first plus twice the length
/// of the message, so that the message is shifted past the identity block
/// of the second.
pub open spec fn lattice_width(msg_len: nat, bit_width: nat) -> nat {
    first_height(msg_len, bit_width) + 2 * msg_len
}

/// The two matrices are lattice bases for messages of `msg_len` entries:
/// the first is an identity block followed by other columns, the second a
/// block of zeros, then an identity block, then other columns.
pub open spec fn lattice_pair(
    a_1: Seq<Seq<nat>>,
    a_2: Seq<Seq<nat>>,
    msg_len: nat,
    bit_width: nat,
) -> bool {
    let h = first_height(msg_len, bit_width) as int;
    let w = lattice_width(msg_len, bit_width) as int;
    &&& a_1.len() == h
    &&& a_2.len() == msg_len
    &&& forall|i: int| 0 <= i < h ==> (#[trigger] a_1[i]).len() == w
    &&& forall|i: int| 0 <= i < h ==> (#[trigger] a_1[i]).subrange(0, h) == mat_identity(h as nat)[i]
    &&& forall|i: int| 0 <= i < msg_len ==> (#[trigger] a_2[i]).len() == w
    &&& forall|i: int| 0 <= i < msg_len ==> (#[trigger] a_2[i]).subrange(0, h) == zeros(h as nat)
    &&& forall|i: int|
        0 <= i < msg_len ==> (#[trigger] a_2[i]).subrange(h, h + msg_len) == mat_identity(
            msg_len,
        )[i]
}

/// Over a lattice pair for messages of `msg_len` entries and a ring of two
/// bits or more, a second secret as long as the message meets only columns
/// of zeros: the second commitment `A_2 * r_2 + val` is `val` itself.
pub proof fn lemma_second_commitment_of_pair(
    a_1: Seq<Seq<nat>>,
    a_2: Seq<Seq<nat>>,
    msg_len: nat,
    bit_width: nat,
    r_2: Seq<nat>,
    val: Seq<nat>,
    q: nat,
)
    requires
        q > 0,
        bit_width >= 2,
        lattice_pair(a_1, a_2, msg_len, bit_width),
        r_2.len() == msg_len,
        val.len() == msg_len,
        reduced(val, q),
    ensures
        vec_add(mat_vec_leading(a_2, r_2, q), val, q) == val,
{
    let h = first_height(msg_len, bit_width) as int;
    assert(msg_len * bit_width >= 2 * msg_len) by (nonlinear_arith)
        requires
            bit_width >= 2,
    ;
    let sum = vec_add(mat_vec_leading(a_2, r_2, q), val, q);
    assert forall|i: int| 0 <= i < msg_len implies sum[i] == val[i] by {
        let row = a_2[i];
        assert(common_len(row, r_2) == msg_len);
        assert forall|k: int| 0 <= k < msg_len implies row[k] == 0 by {
            assert(row.subrange(0, h)[k] == zeros(h as nat)[k]);
        }
        lemma_inner_of_zeros(row, r_2, msg_len as int);
        vstd::arithmetic::div_mod::lemma_small_mod(0, q);
        lemma_add_mod_value(0, val[i], q);
    }
    assert(sum =~= val);
}

/// A commitment to a message: the two lattices, the commitment `c_1` to
/// zero and the commitment `c_2` to the message.
#[derive(Debug)]
pub struct BDLOPScalar<E: Element> {
    a_1: Matrix<E>,
    a_2: Matrix<E>,
    c_1: Vector<E>,
    c_2: Vector<E>,
}

impl<E: Element> BDLOPScalar<E> {
    /// The first lattice.
    pub closed spec fn spec_a_1(&self) -> Matrix<E> {
        self.a_1
    }

    /// The second lattice.
    pub closed spec fn spec_a_2(&self) -> Matrix<E> {
        self.a_2
    }

    /// The commitment to zero.
    pub closed spec fn spec_c_1(&self) -> Vector<E> {
        self.c_1
    }

    /// The commitment to the message.
    pub closed spec fn spec_c_2(&self) -> Vector<E> {
        self.c_2
    }

    /// Lattices and commitment vectors are well formed, and each vector
    /// has one entry for each row of its lattice.
    pub open spec fn wf(&self) -> bool {
        &&& self.spec_a_1().wf()
        &&& self.spec_a_2().wf()
        &&& self.spec_c_1().wf()
        &&& self.spec_c_2().wf()
        &&& self.spec_c_1()@.len() == self.spec_a_1().spec_height()
        &&& self.spec_c_2()@.len() == self.spec_a_2().spec_height()
    }

    /// The commitment is the one that the randomness `r_1`, `r_2` gives for
    /// the message `val` over the lattices of `self`: `c_1 = A_1 * r_1` and
    /// `c_2 = A_2 * r_2 + val`, the second product over the columns of
    /// `A_2` that `r_2` has entries for.
    pub open spec fn commits_to(&self, val: Seq<nat>, r_1: Seq<nat>, r_2: Seq<nat>) -> bool {
        &&& self.spec_c_1()@ == mat_vec(self.spec_a_1()@, r_1, modulus::<E>())
        &&& self.spec_c_2()@ == vec_add(
            mat_vec_leading(self.spec_a_2()@, r_2, modulus::<E>()),
            val,
            modulus::<E>(),
        )
    }

    /// What opening with the secret `r_1`, `r_2` gives: the message
    /// `c_2 - A_2 * r_2` where `A_1 * r_1` is `c_1`, nothing otherwise. The
    /// second product is taken over the columns of `A_2` that `r_2` has
    /// entries for. `r_2` is not checked.
    pub open spec fn opening(&self, r_1: Seq<nat>, r_2: Seq<nat>) -> Option<Seq<nat>> {
        if mat_vec(self.spec_a_1()@, r_1, modulus::<E>()) == self.spec_c_1()@ {
            Some(
                vec_sub(
                    self.spec_c_2()@,
                    mat_vec_leading(self.spec_a_2()@, r_2, modulus::<E>()),
                    modulus::<E>(),
                ),
            )
        } else {
            None
        }
    }

    /// The commitment to zero does not depend on the message: two
    /// commitments over the same first lattice with the same `r_1` have
    /// the same `c_1`, whatever their messages and their `r_2`.
    pub proof fn lemma_c_1_hides_message(
        &self,
        other: &Self,
        val: Seq<nat>,
        other_val: Seq<nat>,
        r_1: Seq<nat>,
        r_2: Seq<nat>,
        other_r_2: Seq<nat>,
    )
        requires
            self.spec_a_1()@ == other.spec_a_1()@,
            self.commits_to(val, r_1, r_2),
            other.commits_to(other_val, r_1, other_r_2),
        ensures
            self.spec_c_1()@ == other.spec_c_1()@,
    {
    }

    /// Opening a commitment with the randomness that it was made with
    /// gives back the message.
    pub proof fn lemma_opens_to_message(&self, val: Seq<nat>, r_1: Seq<nat>, r_2: Seq<nat>)
        requires
            self.commits_to(val, r_1, r_2),
            reduced(val, modulus::<E>()),
            val.len() == self.spec_a_2()@.len(),
        ensures
            self.opening(r_1, r_2) == Some(val),
    {
        E::lemma_parameters();
        lemma_mat_vec_leading_shape(self.spec_a_2()@, r_2, modulus::<E>());
        lemma_vec_add_then_sub_left(
            mat_vec_leading(self.spec_a_2()@, r_2, modulus::<E>()),
            val,
            modulus::<E>(),
        );
    }

    /// A secret whose `r_1` was changed in one place under the identity
    /// block of the first lattice does not open the commitment.
    pub proof fn lemma_tampered_secret_fails(
        &self,
        val: Seq<nat>,
        r_1: Seq<nat>,
        r_2: Seq<nat>,
        tampered: Seq<nat>,
        place: int,
    )
        requires
            self.commits_to(val, r_1, r_2),
            0 <= place < self.spec_a_1()@.len(),
            self.spec_a_1()@[place].len() == r_1.len(),
            place < r_1.len(),
            self.spec_a_1()@[place][place] == 1,
            tampered.len() == r_1.len(),
            reduced(r_1, modulus::<E>()),
            reduced(tampered, modulus::<E>()),
            tampered[place] != r_1[place],
            forall|k: int| 0 <= k < r_1.len() && k != place ==> tampered[k] == r_1[k],
        ensures
            self.opening(tampered, r_2) is None,
    {
        E::lemma_parameters();
        lemma_dot_tells_apart(self.spec_a_1()@[place], tampered, r_1, place, modulus::<E>());
        let honest = mat_vec(self.spec_a_1()@, r_1, modulus::<E>());
        let forged = mat_vec(self.spec_a_1()@, tampered, modulus::<E>());
        assert(honest[place] != forged[place]);
    }

    /// The shape of the lattices for messages of `msg_len` entries: the
    /// height of the first lattice, and the width of both.
    pub fn dimension(msg_len: usize) -> (d: (usize, usize))
        requires
            msg_len * E::BIT_WIDTH + msg_len <= usize::MAX,
        ensures
            d.0 == first_height(msg_len as nat, E::BIT_WIDTH as nat),
            d.1 == lattice_width(msg_len as nat, E::BIT_WIDTH as nat),
            d.1 == d.0 + 2 * msg_len,
    {
        proof {
            E::lemma_parameters();
            assert(msg_len * E::BIT_WIDTH >= msg_len) by (nonlinear_arith)
                requires
                    E::BIT_WIDTH >= 1,
            ;
        }
        // about n * log(q) rows for the message; the second lattice mixes
        // in msg_len rows more
        let a_1_height: usize = msg_len * E::BIT_WIDTH - msg_len;
        // the message is shifted by twice its length, or the identity
        // block of the second lattice would put it out in the plain
        let width: usize = a_1_height + 2 * msg_len;
        (a_1_height, width)
    }

    /// Two random lattice bases for messages of `msg_len` entries.
    pub fn lattice_for(msg_len: usize, rng: &mut StdRng) -> (lattice: (Matrix<E>, Matrix<E>))
        requires
            msg_len * E::BIT_WIDTH + msg_len <= usize::MAX,
        ensures
            lattice.0.wf(),
            lattice.1.wf(),
            lattice.0.spec_height() == first_height(msg_len as nat, E::BIT_WIDTH as nat),
            lattice.0.spec_width() == lattice_width(msg_len as nat, E::BIT_WIDTH as nat),
            lattice.1.spec_height() == msg_len,
            lattice.1.spec_width() == lattice_width(msg_len as nat, E::BIT_WIDTH as nat),
            lattice_pair(lattice.0@, lattice.1@, msg_len as nat, E::BIT_WIDTH as nat),
    {
        let (a_1_height, width) = Self::dimension(msg_len);
        // the first lattice base
        let a_1_left: Matrix<E> = Matrix::<E>::identity(a_1_height);
        let a_1_right: Matrix<E> = Matrix::random(width - a_1_height, a_1_height, rng);
        let ghost left_1 = a_1_left@;
        let ghost right_1 = a_1_right@;
        let a_1: Matrix<E> = a_1_left.compose_horizontal(a_1_right);
        // the second lattice base
        let a_2_left: Matrix<E> = Matrix::<E>::zero(a_1_height, msg_len);
        let a_2_mid: Matrix<E> = Matrix::identity(msg_len);
        let a_2_right: Matrix<E> = Matrix::random(width - a_1_height - msg_len, msg_len, rng);
        let ghost left_2 = a_2_left@;
        let ghost mid_2 = a_2_mid@;
        let ghost right_2 = a_2_right@;
        let a_2: Matrix<E> = a_2_left.compose_horizontal(a_2_mid).compose_horizontal(a_2_right);
        proof {
            let h = a_1_height as int;
            assert forall|i: int| 0 <= i < h implies (#[trigger] a_1@[i]).subrange(0, h)
                == mat_identity(h as nat)[i] by {
                assert(a_1@[i] == left_1[i] + right_1[i]);
                assert(a_1@[i].subrange(0, h) =~= left_1[i]);
            }
            assert forall|i: int| 0 <= i < msg_len implies (#[trigger] a_2@[i]).subrange(0, h)
                == zeros(h as nat) by {
                assert(a_2@[i] == (left_2[i] + mid_2[i]) + right_2[i]);
                assert(a_2@[i].subrange(0, h) =~= left_2[i]);
            }
            assert forall|i: int| 0 <= i < msg_len implies (#[trigger] a_2@[i]).subrange(
                h,
                h + msg_len,
            ) == mat_identity(msg_len as nat)[i] by {
                assert(a_2@[i] == (left_2[i] + mid_2[i]) + right_2[i]);
                assert(a_2@[i].subrange(h, h + msg_len) =~= mid_2[i]);
            }
            assert forall|i: int| 0 <= i < h implies (#[trigger] a_1@[i]).len() == width by {}
            assert forall|i: int| 0 <= i < msg_len implies (#[trigger] a_2@[i]).len() == width by {}
        }
        (a_1, a_2)
    }

    /// Commits to `val` over the two lattices with the randomness `r_1`,
    /// as long as the first lattice is wide, and `r_2`, as long as `val`:
    /// `c_1 = A_1 * r_1`, which does not depend on `val`, and
    /// `c_2 = A_2 * r_2 + val`, where the product meets the first
    /// `r_2.len()` columns of `A_2` only.
    pub fn commit_with_randomness(
        val: Vector<E>,
        lattice: (Matrix<E>, Matrix<E>),
        r_1: &Vector<E>,
        r_2: &Vector<E>,
    ) -> (c: Self)
        requires
            val.wf(),
            lattice.0.wf(),
            lattice.1.wf(),
            r_1.wf(),
            r_2.wf(),
            r_1@.len() == lattice.0.spec_width(),
            r_2@.len() == val@.len(),
            val@.len() == lattice.1.spec_height(),
        ensures
            c.wf(),
            c.spec_a_1() == lattice.0,
            c.spec_a_2() == lattice.1,
            c.commits_to(val@, r_1@, r_2@),
    {
        let (a_1, a_2) = lattice;
        let c_1: Vector<E> = a_1.mul_vector(r_1);
        let c_2: Vector<E> = a_2.mul_vector_leading(r_2).add(&val);
        Self { a_1, a_2, c_1, c_2 }
    }

    /// Commits to `val` over the two lattices, with randomness drawn from
    /// the generator: `r_1` as long as the first lattice is wide, `r_2` as
    /// long as `val`. Returns the secret `(r_1, r_2)` and the commitment.
    ///
    /// The product `A_2 * r_2` meets the first `val.len()` columns of `A_2`
    /// only. Over a lattice pair of [`BDLOPScalar::lattice_for`] for a ring
    /// of two bits or more these are columns of zeros, and `c_2` is `val`.
    pub fn commit(val: Vector<E>, lattice: (Matrix<E>, Matrix<E>), rng: &mut StdRng) -> (out: (
        (Vector<E>, Vector<E>),
        Self,
    ))
        requires
            val.wf(),
            lattice.0.wf(),
            lattice.1.wf(),
            val@.len() == lattice.1.spec_height(),
        ensures
            out.1.wf(),
            out.1.spec_a_1() == lattice.0,
            out.1.spec_a_2() == lattice.1,
            out.0.0.wf(),
            out.0.1.wf(),
            out.0.0@.len() == lattice.0.spec_width(),
            out.0.1@.len() == val@.len(),
            out.1.commits_to(val@, out.0.0@, out.0.1@),
    {
        let msg_len: usize = val.len();
        // the secret committing to the zero component
        let r_1: Vector<E> = Vector::random(lattice.0.width(), rng);
        // the secret committing to the message component
        let r_2: Vector<E> = Vector::random(msg_len, rng);
        let c: Self = Self::commit_with_randomness(val, lattice, &r_1, &r_2);
        ((r_1, r_2), c)
    }

    /// Attempts to open the commitment with the secret `(r_1, r_2)`.
    /// First `c_1` is opened to zero with `r_1`; if that succeeds, `c_2`
    /// is opened with `r_2` to whatever it holds. A correct `r_1` is taken
    /// to vouch for `r_2`, which is not checked, not even for its length:
    /// the product `A_2 * r_2` meets the columns that `r_2` has entries
    /// for.
    pub fn try_open(&self, secret: (&Vector<E>, &Vector<E>)) -> (r: Result<Vector<E>, Error>)
        requires
            self.wf(),
            secret.0.wf(),
            secret.1.wf(),
            secret.0@.len() == self.spec_a_1().spec_width(),
        ensures
            match r {
                Ok(val) => self.opening(secret.0@, secret.1@) == Some(val@) && val.wf(),
                Err(failure) => self.opening(secret.0@, secret.1@) is None && failure
                    == Error::CommitmentOpenFailure,
            },
    {
        let (r_1, r_2) = secret;
        if !(self.a_1.mul_vector(r_1) == self.c_1) {
            return Err(Error::CommitmentOpenFailure);
        }
        Ok(self.c_2.clone().sub(&self.a_2.mul_vector_leading(r_2)))
    }

    /// The first lattice.
    pub fn a_1(&self) -> (m: &Matrix<E>)
        ensures
            *m == self.spec_a_1(),
    {
        &self.a_1
    }

    /// The second lattice.
    pub fn a_2(&self) -> (m: &Matrix<E>)
        ensures
            *m == self.spec_a_2(),
    {
        &self.a_2
    }

    /// The commitment to zero.
    pub fn c_1(&self) -> (v: &Vector<E>)
        ensures
            *v == self.spec_c_1(),
    {
        &self.c_1
    }

    /// The commitment to the message.
    pub fn c_2(&self) -> (v: &Vector<E>)
        ensures
            *v == self.spec_c_2(),
    {
        &self.c_2
    }
}

impl<E: Element> Clone for BDLOPScalar<E> {
    /// A commitment with the same lattices and commitment vectors.
    fn clone(&self) -> (r: Self)
        ensures
            r.spec_a_1()@ == self.spec_a_1()@,
            r.spec_a_1().spec_width() == self.spec_a_1().spec_width(),
            r.spec_a_1().spec_height() == self.spec_a_1().spec_height(),
            r.spec_a_2()@ == self.spec_a_2()@,
            r.spec_a_2().spec_width() == self.spec_a_2().spec_width(),
            r.spec_a_2().spec_height() == self.spec_a_2().spec_height(),
            r.spec_c_1()@ == self.spec_c_1()@,
            r.spec_c_2()@ == self.spec_c_2()@,
            r.wf() == self.wf(),
    {
        Self {
            a_1: self.a_1.clone(),
            a_2: self.a_2.clone(),
            c_1: self.c_1.clone(),
            c_2: self.c_2.clone(),
        }
    }
}

} // verus!
