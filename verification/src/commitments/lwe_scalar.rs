//! Commitments based on the learning-with-errors problem over a scalar
//! ring: a linear image of the committed vector, perturbed by small noise.
//!
//! The noise that [`LWEScalar::commit`] draws takes, entry by entry, one of
//! the three values -1, 0 and 1 of the ring.
//! [`LWEScalar::commit_with_noise`] takes noise from any other source, such
//! as a discrete Gaussian sampler.

use crate::element::{modulus, Element};
use crate::error::Error;
use crate::linear::{
    lemma_mat_vec_of_scaled, lemma_mat_vec_of_sum, lemma_mat_vec_shape, lemma_vec_add_then_sub_left,
    mat_vec, reduced, reduced_rows, vec_add, vec_mul, vec_scale, vec_sub,
};
use crate::matrix::Matrix;
use crate::modular::{
    add_mod, lemma_add_mod_value, lemma_scaled_sum_then_sub, lemma_sub_mod_value,
    lemma_zero_distance_of_product, lemma_zero_distance_of_sum, lemma_zero_distance_value,
    sub_mod, zero_distance,
};
use crate::random::random_below;
use crate::vector::Vector;
use rand::rngs::StdRng;
use vstd::arithmetic::div_mod::lemma_small_mod;
use vstd::prelude::*;

verus! {

/// Every entry lies within `bound` of zero.
pub open spec fn bounded_noise(noise: Seq<nat>, bound: nat, q: nat) -> bool {
    forall|i: int| 0 <= i < noise.len() ==> zero_distance(#[trigger] noise[i], q) <= bound
}

/// The noise that a commitment implies for a claimed value: the commitment
/// minus the image of the value.
pub open spec fn implied_noise(
    commitment: Seq<nat>,
    lattice: Seq<Seq<nat>>,
    val: Seq<nat>,
    q: nat,
) -> Seq<nat> {
    vec_sub(commitment, mat_vec(lattice, val, q), q)
}

/// The commitment opens to `val` within `max_err`: the noise that it
/// implies for `val` lies, entry by entry, within `max_err` of zero.
pub open spec fn opens(
    commitment: Seq<nat>,
    lattice: Seq<Seq<nat>>,
    val: Seq<nat>,
    max_err: nat,
    q: nat,
) -> bool {
    bounded_noise(implied_noise(commitment, lattice, val, q), max_err, q)
}

/// The commitment is the image of `val` under the lattice plus some noise
/// that lies, entry by entry, within `bound` of zero.
pub open spec fn noisy_image(
    commitment: Seq<nat>,
    lattice: Seq<Seq<nat>>,
    val: Seq<nat>,
    bound: nat,
    q: nat,
) -> bool {
    exists|noise: Seq<nat>|
        {
            &&& noise.len() == lattice.len()
            &&& reduced(noise, q)
            &&& bounded_noise(noise, bound, q)
            &&& commitment == vec_add(#[trigger] mat_vec(lattice, val, q), noise, q)
        }
}

/// Entry `i` is the first that lies further than `bound` from zero.
pub open spec fn first_beyond(noise: Seq<nat>, bound: nat, q: nat, i: int) -> bool {
    &&& 0 <= i < noise.len()
    &&& zero_distance(noise[i], q) > bound
    &&& forall|j: int| 0 <= j < i ==> zero_distance(#[trigger] noise[j], q) <= bound
}

/// A commitment made with noise within `bound` of zero opens to its value
/// within `bound`.
pub proof fn lemma_noisy_image_opens(
    commitment: Seq<nat>,
    lattice: Seq<Seq<nat>>,
    val: Seq<nat>,
    bound: nat,
    q: nat,
)
    requires
        q > 0,
        noisy_image(commitment, lattice, val, bound, q),
    ensures
        opens(commitment, lattice, val, bound, q),
{
    let noise = choose|noise: Seq<nat>|
        {
            &&& noise.len() == lattice.len()
            &&& reduced(noise, q)
            &&& bounded_noise(noise, bound, q)
            &&& commitment == vec_add(#[trigger] mat_vec(lattice, val, q), noise, q)
        };
    lemma_commitment_opens(lattice, val, noise, bound, q);
}

/// Opening a commitment against the value that it was made for recovers
/// the noise that was added; so a commitment made with noise within one of
/// zero opens to its value with `max_err = 1`.
pub proof fn lemma_commitment_opens(
    lattice: Seq<Seq<nat>>,
    val: Seq<nat>,
    noise: Seq<nat>,
    bound: nat,
    q: nat,
)
    requires
        q > 0,
        noise.len() == lattice.len(),
        reduced(noise, q),
        bounded_noise(noise, bound, q),
    ensures
        implied_noise(vec_add(mat_vec(lattice, val, q), noise, q), lattice, val, q) == noise,
        opens(vec_add(mat_vec(lattice, val, q), noise, q), lattice, val, bound, q),
{
    lemma_mat_vec_shape(lattice, val, q);
    lemma_vec_add_then_sub_left(mat_vec(lattice, val, q), noise, q);
}

/// The sum of two commitments over one lattice opens to the sum of their
/// values, with the sum of their noise: so within the sum of the bounds
/// that held the noise of each.
pub proof fn lemma_sum_of_commitments_opens(
    lattice: Seq<Seq<nat>>,
    a: Seq<nat>,
    b: Seq<nat>,
    noise_a: Seq<nat>,
    noise_b: Seq<nat>,
    bound_a: nat,
    bound_b: nat,
    q: nat,
)
    requires
        q > 0,
        a.len() == b.len(),
        reduced_rows(lattice, a.len(), q),
        noise_a.len() == lattice.len(),
        noise_b.len() == lattice.len(),
        reduced(noise_a, q),
        reduced(noise_b, q),
        bounded_noise(noise_a, bound_a, q),
        bounded_noise(noise_b, bound_b, q),
    ensures
        implied_noise(
            vec_add(
                vec_add(mat_vec(lattice, a, q), noise_a, q),
                vec_add(mat_vec(lattice, b, q), noise_b, q),
                q,
            ),
            lattice,
            vec_add(a, b, q),
            q,
        ) == vec_add(noise_a, noise_b, q),
        opens(
            vec_add(
                vec_add(mat_vec(lattice, a, q), noise_a, q),
                vec_add(mat_vec(lattice, b, q), noise_b, q),
                q,
            ),
            lattice,
            vec_add(a, b, q),
            bound_a + bound_b,
            q,
        ),
{
    let image_a = mat_vec(lattice, a, q);
    let image_b = mat_vec(lattice, b, q);
    let sum = vec_add(vec_add(image_a, noise_a, q), vec_add(image_b, noise_b, q), q);
    let recovered = implied_noise(sum, lattice, vec_add(a, b, q), q);
    lemma_mat_vec_shape(lattice, a, q);
    lemma_mat_vec_shape(lattice, b, q);
    lemma_mat_vec_of_sum(lattice, a, b, q);
    assert forall|i: int| 0 <= i < recovered.len() implies recovered[i] == vec_add(
        noise_a,
        noise_b,
        q,
    )[i] by {
        lemma_sum_then_sub(image_a[i], noise_a[i], image_b[i], noise_b[i], q);
    }
    assert(recovered =~= vec_add(noise_a, noise_b, q));
    assert forall|i: int| 0 <= i < recovered.len() implies zero_distance(
        #[trigger] recovered[i],
        q,
    ) <= bound_a + bound_b by {
        lemma_zero_distance_of_sum(noise_a[i], noise_b[i], q);
    }
}

/// A commitment scaled by `s` opens to its value scaled by `s`, with its
/// noise scaled by `s`: so within the bound that held the noise times the
/// distance of `s` from zero.
pub proof fn lemma_scaled_commitment_opens(
    lattice: Seq<Seq<nat>>,
    a: Seq<nat>,
    noise: Seq<nat>,
    bound: nat,
    s: nat,
    q: nat,
)
    requires
        q > 0,
        s < q,
        reduced_rows(lattice, a.len(), q),
        noise.len() == lattice.len(),
        reduced(noise, q),
        bounded_noise(noise, bound, q),
    ensures
        implied_noise(
            vec_scale(vec_add(mat_vec(lattice, a, q), noise, q), s, q),
            lattice,
            vec_scale(a, s, q),
            q,
        ) == vec_scale(noise, s, q),
        opens(
            vec_scale(vec_add(mat_vec(lattice, a, q), noise, q), s, q),
            lattice,
            vec_scale(a, s, q),
            bound * zero_distance(s, q),
            q,
        ),
{
    let image = mat_vec(lattice, a, q);
    let scaled = vec_scale(vec_add(image, noise, q), s, q);
    let recovered = implied_noise(scaled, lattice, vec_scale(a, s, q), q);
    lemma_mat_vec_shape(lattice, a, q);
    lemma_mat_vec_of_scaled(lattice, a, s, q);
    assert forall|i: int| 0 <= i < recovered.len() implies recovered[i] == vec_scale(
        noise,
        s,
        q,
    )[i] by {
        lemma_scaled_sum_then_sub(image[i], noise[i], s, q);
    }
    assert(recovered =~= vec_scale(noise, s, q));
    assert forall|i: int| 0 <= i < recovered.len() implies zero_distance(
        #[trigger] recovered[i],
        q,
    ) <= bound * zero_distance(s, q) by {
        lemma_zero_distance_of_product(noise[i], s, q);
        let d = zero_distance(noise[i], q);
        let t = zero_distance(s, q);
        assert(d * t <= bound * t) by (nonlinear_arith)
            requires
                d <= bound,
                t >= 0,
        ;
    }
}

/// `(x + m) + (y + n) - (x + y) == m + n` in the ring.
proof fn lemma_sum_then_sub(x: nat, m: nat, y: nat, n: nat, q: nat)
    requires
        x < q,
        m < q,
        y < q,
        n < q,
    ensures
        sub_mod(add_mod(add_mod(x, m, q), add_mod(y, n, q), q), add_mod(x, y, q), q) == add_mod(
            m,
            n,
            q,
        ),
{
    lemma_add_mod_value(x, m, q);
    lemma_add_mod_value(y, n, q);
    lemma_add_mod_value(add_mod(x, m, q), add_mod(y, n, q), q);
    lemma_add_mod_value(x, y, q);
    lemma_add_mod_value(m, n, q);
    lemma_sub_mod_value(add_mod(add_mod(x, m, q), add_mod(y, n, q), q), add_mod(x, y, q), q);
}

/// A vector of `len` entries, each of them -1, 0 or 1 in the ring, as the
/// generator decides.
fn small_noise<E: Element>(len: usize, rng: &mut StdRng) -> (err: Vector<E>)
    ensures
        err@.len() == len,
        err.wf(),
        bounded_noise(err@, 1, modulus::<E>()),
{
    let mut err: Vector<E> = Vector::new(len);
    let mut i: usize = 0;
    proof {
        E::lemma_parameters();
        lemma_zero_distance_value(0, modulus::<E>());
    }
    while i < len
        invariant
            i <= len,
            err@.len() == len,
            err.wf(),
            E::CARDINALITY >= 2,
            bounded_noise(err@, 1, modulus::<E>()),
        decreases len - i,
    {
        // a value from 0 to 2, moved to the range from -1 to 1 of the ring
        let v: u128 = random_below(rng, 3) as u128;
        let e: E = E::from_u128(v).sub(E::one());
        proof {
            let q = modulus::<E>();
            if v < q {
                lemma_small_mod(v as nat, q);
            } else {
                vstd::arithmetic::div_mod::lemma_mod_self_0(q as int);
            }
            lemma_sub_mod_value((v as nat) % q, 1, q);
            lemma_zero_distance_value(e.value(), q);
        }
        err.set(i, e);
        i += 1;
    }
    err
}

/// A commitment to a vector: the lattice it was made over and the
/// commitment vector, which is the image of the vector under the lattice
/// plus noise.
#[derive(Debug)]
pub struct LWEScalar<E: Element> {
    lattice: Matrix<E>,
    commitment: Vector<E>,
}

impl<E: Element> LWEScalar<E> {
    /// The lattice that the commitment was made over.
    pub closed spec fn spec_lattice(&self) -> Matrix<E> {
        self.lattice
    }

    /// The commitment vector.
    pub closed spec fn spec_commitment(&self) -> Vector<E> {
        self.commitment
    }

    /// Lattice and commitment vector are well formed, and the vector has
    /// one entry for each row of the lattice.
    pub open spec fn wf(&self) -> bool {
        &&& self.spec_lattice().wf()
        &&& self.spec_commitment().wf()
        &&& self.spec_commitment()@.len() == self.spec_lattice().spec_height()
    }

    /// A random lattice for vectors of `element_len` entries: as wide as
    /// the vectors are long, and `BIT_WIDTH` times as high.
    pub fn lattice_for(element_len: usize, rng: &mut StdRng) -> (lattice: Matrix<E>)
        requires
            element_len * E::BIT_WIDTH <= usize::MAX,
        ensures
            lattice.wf(),
            lattice.spec_width() == element_len,
            lattice.spec_height() == element_len * E::BIT_WIDTH,
    {
        let height: usize = element_len * E::BIT_WIDTH;
        Matrix::<E>::random(element_len, height, rng)
    }

    /// Commits to `val` over `lattice` with the noise `err`: the
    /// commitment vector is `lattice * val + err`.
    pub fn commit_with_noise(val: Vector<E>, lattice: Matrix<E>, err: &Vector<E>) -> (c: Self)
        requires
            val.wf(),
            lattice.wf(),
            err.wf(),
            val@.len() == lattice.spec_width(),
            err@.len() == lattice.spec_height(),
        ensures
            c.wf(),
            c.spec_lattice() == lattice,
            c.spec_commitment()@ == vec_add(
                mat_vec(lattice@, val@, modulus::<E>()),
                err@,
                modulus::<E>(),
            ),
    {
        let commitment: Vector<E> = lattice.mul_vector(&val).add(err);
        Self { lattice, commitment }
    }

    /// Commits to `val` over `lattice` with noise drawn from the
    /// generator, each entry of it -1, 0 or 1.
    pub fn commit(val: Vector<E>, lattice: Matrix<E>, rng: &mut StdRng) -> (c: Self)
        requires
            val.wf(),
            lattice.wf(),
            val@.len() == lattice.spec_width(),
        ensures
            c.wf(),
            c.spec_lattice() == lattice,
            noisy_image(c.spec_commitment()@, lattice@, val@, 1, modulus::<E>()),
    {
        let height: usize = lattice.height();
        let err: Vector<E> = small_noise::<E>(height, rng);
        let c: Self = Self::commit_with_noise(val, lattice, &err);
        assert(c.spec_commitment()@ == vec_add(
            mat_vec(lattice@, val@, modulus::<E>()),
            err@,
            modulus::<E>(),
        ));
        c
    }

    /// Attempts to open the commitment to `val`: recovers the noise that
    /// the commitment implies for `val`, and returns it if every entry lies
    /// within `max_err` of zero. Otherwise the failure holds the distance
    /// of the first entry that lies further out.
    pub fn try_open(&self, val: &Vector<E>, max_err: u128) -> (r: Result<Vector<E>, Error>)
        requires
            self.wf(),
            val.wf(),
            val@.len() == self.spec_lattice().spec_width(),
        ensures
            r is Ok <==> opens(
                self.spec_commitment()@,
                self.spec_lattice()@,
                val@,
                max_err as nat,
                modulus::<E>(),
            ),
            match r {
                Ok(err) => {
                    &&& err@ == implied_noise(
                        self.spec_commitment()@,
                        self.spec_lattice()@,
                        val@,
                        modulus::<E>(),
                    )
                    &&& err.wf()
                },
                Err(failure) => {
                    let noise = implied_noise(
                        self.spec_commitment()@,
                        self.spec_lattice()@,
                        val@,
                        modulus::<E>(),
                    );
                    (exists|i: int| #[trigger]
                        first_beyond(noise, max_err as nat, modulus::<E>(), i) && failure == (
                        Error::ErrorBoundExceeded {
                            dist: zero_distance(noise[i], modulus::<E>()) as u128,
                            bound: max_err,
                        }))
                },
            },
    {
        let maybe_committed_no_err: Vector<E> = self.lattice.mul_vector(val);
        let err: Vector<E> = self.commitment.clone().sub(&maybe_committed_no_err);
        let n: usize = err.len();
        let ghost noise = implied_noise(
            self.spec_commitment()@,
            self.spec_lattice()@,
            val@,
            modulus::<E>(),
        );
        let mut i: usize = 0;
        while i < n
            invariant
                i <= n,
                n == err@.len(),
                err.wf(),
                err@ == noise,
                noise == implied_noise(
                    self.spec_commitment()@,
                    self.spec_lattice()@,
                    val@,
                    modulus::<E>(),
                ),
                forall|j: int|
                    0 <= j < i ==> zero_distance(#[trigger] noise[j], modulus::<E>()) <= max_err,
            decreases n - i,
        {
            assert(err@[i as int] < modulus::<E>());
            let dist: u128 = err.index(i).zero_dist();
            if dist > max_err {
                assert(first_beyond(noise, max_err as nat, modulus::<E>(), i as int));
                return Err(Error::ErrorBoundExceeded { dist, bound: max_err });
            }
            i += 1;
        }
        Ok(err)
    }

    /// The lattice that the commitment was made over.
    pub fn lattice(&self) -> (l: &Matrix<E>)
        ensures
            *l == self.spec_lattice(),
    {
        &self.lattice
    }

    /// The commitment vector.
    pub fn commitment(&self) -> (c: &Vector<E>)
        ensures
            *c == self.spec_commitment(),
    {
        &self.commitment
    }

    /// Subtracts the commitment vector of `rhs`. The result commits, over
    /// the lattice of `self`, to the difference of the values, with the
    /// difference of the noise, provided `rhs` was made over the same
    /// lattice.
    pub fn sub_assign(&mut self, rhs: &Self)
        requires
            old(self).wf(),
            rhs.wf(),
            old(self).spec_commitment()@.len() == rhs.spec_commitment()@.len(),
        ensures
            final(self).wf(),
            final(self).spec_lattice() == old(self).spec_lattice(),
            final(self).spec_commitment()@ == vec_sub(
                old(self).spec_commitment()@,
                rhs.spec_commitment()@,
                modulus::<E>(),
            ),
    {
        self.commitment.sub_assign(&rhs.commitment);
    }

    /// The commitment with the commitment vector of `rhs` subtracted.
    pub fn sub(self, rhs: &Self) -> (r: Self)
        requires
            self.wf(),
            rhs.wf(),
            self.spec_commitment()@.len() == rhs.spec_commitment()@.len(),
        ensures
            r.wf(),
            r.spec_lattice() == self.spec_lattice(),
            r.spec_commitment()@ == vec_sub(
                self.spec_commitment()@,
                rhs.spec_commitment()@,
                modulus::<E>(),
            ),
    {
        let mut out: Self = self;
        out.sub_assign(rhs);
        out
    }

    /// Adds the commitment vector of `rhs`. The result commits, over the
    /// lattice of `self`, to the sum of the values, with the sum of the
    /// noise, provided `rhs` was made over the same lattice.
    pub fn add_assign(&mut self, rhs: &Self)
        requires
            old(self).wf(),
            rhs.wf(),
            old(self).spec_commitment()@.len() == rhs.spec_commitment()@.len(),
        ensures
            final(self).wf(),
            final(self).spec_lattice() == old(self).spec_lattice(),
            final(self).spec_commitment()@ == vec_add(
                old(self).spec_commitment()@,
                rhs.spec_commitment()@,
                modulus::<E>(),
            ),
    {
        self.commitment.add_assign(&rhs.commitment);
    }

    /// The commitment with the commitment vector of `rhs` added.
    pub fn add(self, rhs: &Self) -> (r: Self)
        requires
            self.wf(),
            rhs.wf(),
            self.spec_commitment()@.len() == rhs.spec_commitment()@.len(),
        ensures
            r.wf(),
            r.spec_lattice() == self.spec_lattice(),
            r.spec_commitment()@ == vec_add(
                self.spec_commitment()@,
                rhs.spec_commitment()@,
                modulus::<E>(),
            ),
    {
        let mut out: Self = self;
        out.add_assign(rhs);
        out
    }

    /// Multiplies the commitment vector by the scalar `rhs`: value and
    /// noise are both scaled.
    pub fn scale_assign(&mut self, rhs: E)
        requires
            old(self).wf(),
            rhs.value() < E::CARDINALITY,
        ensures
            final(self).wf(),
            final(self).spec_lattice() == old(self).spec_lattice(),
            final(self).spec_commitment()@ == vec_scale(
                old(self).spec_commitment()@,
                rhs.value(),
                modulus::<E>(),
            ),
    {
        self.commitment.scale_assign(rhs);
    }

    /// The commitment with its commitment vector multiplied by the scalar
    /// `rhs`.
    pub fn scale(self, rhs: E) -> (r: Self)
        requires
            self.wf(),
            rhs.value() < E::CARDINALITY,
        ensures
            r.wf(),
            r.spec_lattice() == self.spec_lattice(),
            r.spec_commitment()@ == vec_scale(
                self.spec_commitment()@,
                rhs.value(),
                modulus::<E>(),
            ),
    {
        let mut out: Self = self;
        out.scale_assign(rhs);
        out
    }

    /// Multiplies the commitment vector by `rhs`, entry by entry.
    pub fn mul_assign(&mut self, rhs: &Vector<E>)
        requires
            old(self).wf(),
            rhs.wf(),
            old(self).spec_commitment()@.len() == rhs@.len(),
        ensures
            final(self).wf(),
            final(self).spec_lattice() == old(self).spec_lattice(),
            final(self).spec_commitment()@ == vec_mul(
                old(self).spec_commitment()@,
                rhs@,
                modulus::<E>(),
            ),
    {
        self.commitment.mul_assign(rhs);
    }

    /// The commitment with its commitment vector multiplied by `rhs`, entry
    /// by entry.
    pub fn mul(self, rhs: &Vector<E>) -> (r: Self)
        requires
            self.wf(),
            rhs.wf(),
            self.spec_commitment()@.len() == rhs@.len(),
        ensures
            r.wf(),
            r.spec_lattice() == self.spec_lattice(),
            r.spec_commitment()@ == vec_mul(self.spec_commitment()@, rhs@, modulus::<E>()),
    {
        let mut out: Self = self;
        out.mul_assign(rhs);
        out
    }
}

impl<E: Element> Clone for LWEScalar<E> {
    /// A commitment with the same lattice and commitment vector.
    fn clone(&self) -> (r: Self)
        ensures
            r.spec_lattice()@ == self.spec_lattice()@,
            r.spec_lattice().spec_width() == self.spec_lattice().spec_width(),
            r.spec_lattice().spec_height() == self.spec_lattice().spec_height(),
            r.spec_commitment()@ == self.spec_commitment()@,
            r.wf() == self.wf(),
    {
        Self { lattice: self.lattice.clone(), commitment: self.commitment.clone() }
    }
}

} // verus!
