//! Vectors of ring elements.

use crate::element::{modulus, Element};
use crate::linear::{
    lemma_entrywise_reduced, lemma_sum_step, reduced, vec_add, vec_add_scalar, vec_mul, vec_scale,
    vec_sub, vec_sum, sum_upto, zeros,
};
use crate::modular::{lemma_mod_range, zero_distance};
use rand::rngs::StdRng;
use vstd::prelude::*;
use vstd::std_specs::cmp::PartialEqSpecImpl;
use vstd::std_specs::convert::FromSpecImpl;

verus! {

/// The numbers that a sequence of elements stands for.
pub open spec fn values<E: Element>(s: Seq<E>) -> Seq<nat> {
    Seq::new(s.len(), |i: int| s[i].value())
}

/// A vector of elements of the ring `E`. Its length is fixed when it is
/// made; its entries can be replaced.
#[derive(Debug)]
pub struct Vector<E: Element> {
    entries: Vec<E>,
}

impl<E: Element> View for Vector<E> {
    type V = Seq<nat>;

    /// The values of the entries, in order.
    open spec fn view(&self) -> Seq<nat> {
        values(self.elements())
    }
}

impl<E: Element> Vector<E> {
    /// The entries, in order.
    pub closed spec fn elements(&self) -> Seq<E> {
        self.entries@
    }

    /// Every entry is a reduced element.
    pub open spec fn wf(&self) -> bool {
        reduced(self@, modulus::<E>())
    }

    /// The vector of `len` zeros.
    pub fn new(len: usize) -> (r: Self)
        ensures
            r@ == zeros(len as nat),
            r.wf(),
    {
        let mut entries: Vec<E> = Vec::new();
        let mut i: usize = 0;
        while i < len
            invariant
                i <= len,
                entries@.len() == i,
                forall|j: int| 0 <= j < i ==> (#[trigger] entries@[j]).value() == 0,
            decreases len - i,
        {
            entries.push(E::zero());
            i += 1;
        }
        let r = Self { entries };
        proof {
            E::lemma_parameters();
            assert(r@ =~= zeros(len as nat));
        }
        r
    }

    /// A vector of `len` entries, each drawn from the generator.
    pub fn random(len: usize, rng: &mut StdRng) -> (r: Self)
        ensures
            r@.len() == len,
            r.wf(),
    {
        let mut entries: Vec<E> = Vec::new();
        let mut i: usize = 0;
        while i < len
            invariant
                i <= len,
                entries@.len() == i,
                forall|j: int| 0 <= j < i ==> (#[trigger] entries@[j]).value() < E::CARDINALITY,
            decreases len - i,
        {
            entries.push(E::sample_rand(rng));
            i += 1;
        }
        Self { entries }
    }

    /// Sum of the entries, in the ring.
    pub fn sum(&self) -> (r: E)
        requires
            self.wf(),
        ensures
            r.value() == vec_sum(self@, modulus::<E>()),
            r.value() < E::CARDINALITY,
    {
        let mut out: E = E::zero();
        let mut i: usize = 0;
        proof {
            E::lemma_parameters();
            vstd::arithmetic::div_mod::lemma_small_mod(0, modulus::<E>());
        }
        while i < self.entries.len()
            invariant
                self.wf(),
                i <= self.entries@.len(),
                E::CARDINALITY >= 2,
                out.value() == sum_upto(self@, i as int) % modulus::<E>(),
            decreases self.entries@.len() - i,
        {
            proof {
                lemma_sum_step(self@, i as int, modulus::<E>());
                lemma_mod_range(sum_upto(self@, i as int) as int, modulus::<E>());
                assert(self@[i as int] < modulus::<E>());
            }
            out = out.add(self.entries[i]);
            i += 1;
        }
        out
    }

    /// Sum of the entries, in the ring; the vector is used up.
    pub fn into_sum(self) -> (r: E)
        requires
            self.wf(),
        ensures
            r.value() == vec_sum(self@, modulus::<E>()),
            r.value() < E::CARDINALITY,
    {
        self.sum()
    }

    /// Is every entry the additive identity?
    pub fn is_zero(&self) -> (b: bool)
        ensures
            b == (self@ == zeros(self@.len())),
    {
        let mut i: usize = 0;
        while i < self.entries.len()
            invariant
                i <= self.entries@.len(),
                forall|j: int| 0 <= j < i ==> #[trigger] self@[j] == 0,
            decreases self.entries@.len() - i,
        {
            if !self.entries[i].is_zero() {
                assert(self@[i as int] != zeros(self@.len())[i as int]);
                return false;
            }
            i += 1;
        }
        assert(self@ =~= zeros(self@.len()));
        true
    }

    /// Number of entries.
    pub fn len(&self) -> (n: usize)
        ensures
            n == self@.len(),
    {
        self.entries.len()
    }

    /// An iterator over the entries, in order.
    pub fn iter(&self) -> (it: core::slice::Iter<'_, E>)
        ensures
            vstd::std_specs::slice::into_iter_elts(it) == self.elements(),
    {
        let it = self.entries.iter();
        it
    }

    /// The entry at `index`.
    pub fn index(&self, index: usize) -> (e: &E)
        requires
            index < self@.len(),
        ensures
            *e == self.elements()[index as int],
            e.value() == self@[index as int],
    {
        &self.entries[index]
    }

    /// Replaces the entry at `index`.
    pub fn set(&mut self, index: usize, value: E)
        requires
            index < old(self)@.len(),
        ensures
            final(self).elements() == old(self).elements().update(index as int, value),
            final(self)@ == old(self)@.update(index as int, value.value()),
    {
        self.entries.set(index, value);
        assert(self@ =~= old(self)@.update(index as int, value.value()));
    }

    /// The entries, in order; the vector is used up.
    pub fn into_vec(self) -> (v: Vec<E>)
        ensures
            v@ == self.elements(),
    {
        self.entries
    }

    /// Multiplies every entry by `rhs`.
    pub fn scale_assign(&mut self, rhs: E)
        requires
            old(self).wf(),
            rhs.value() < E::CARDINALITY,
        ensures
            final(self)@ == vec_scale(old(self)@, rhs.value(), modulus::<E>()),
            final(self).wf(),
    {
        let n: usize = self.entries.len();
        let mut i: usize = 0;
        while i < n
            invariant
                i <= n,
                n == self.entries@.len(),
                n == old(self).entries@.len(),
                old(self).wf(),
                rhs.value() < E::CARDINALITY,
                forall|j: int|
                    0 <= j < i ==> (#[trigger] self.entries@[j]).value() == vec_scale(
                        old(self)@,
                        rhs.value(),
                        modulus::<E>(),
                    )[j],
                forall|j: int| i <= j < n ==> #[trigger] self.entries@[j] == old(self).entries@[j],
            decreases n - i,
        {
            assert(old(self)@[i as int] < modulus::<E>());
            let entry: E = self.entries[i];
            self.entries.set(i, entry.mul(rhs));
            i += 1;
        }
        proof {
            E::lemma_parameters();
            assert(self@ =~= vec_scale(old(self)@, rhs.value(), modulus::<E>()));
            lemma_entrywise_reduced(old(self)@, old(self)@, rhs.value(), modulus::<E>());
        }
    }

    /// The vector with every entry multiplied by `rhs`.
    pub fn scale(self, rhs: E) -> (r: Self)
        requires
            self.wf(),
            rhs.value() < E::CARDINALITY,
        ensures
            r@ == vec_scale(self@, rhs.value(), modulus::<E>()),
            r.wf(),
    {
        let mut out: Self = self;
        out.scale_assign(rhs);
        out
    }

    /// Adds `rhs` to every entry.
    pub fn add_scalar_assign(&mut self, rhs: E)
        requires
            old(self).wf(),
            rhs.value() < E::CARDINALITY,
        ensures
            final(self)@ == vec_add_scalar(old(self)@, rhs.value(), modulus::<E>()),
            final(self).wf(),
    {
        let n: usize = self.entries.len();
        let mut i: usize = 0;
        while i < n
            invariant
                i <= n,
                n == self.entries@.len(),
                n == old(self).entries@.len(),
                old(self).wf(),
                rhs.value() < E::CARDINALITY,
                forall|j: int|
                    0 <= j < i ==> (#[trigger] self.entries@[j]).value() == vec_add_scalar(
                        old(self)@,
                        rhs.value(),
                        modulus::<E>(),
                    )[j],
                forall|j: int| i <= j < n ==> #[trigger] self.entries@[j] == old(self).entries@[j],
            decreases n - i,
        {
            assert(old(self)@[i as int] < modulus::<E>());
            let entry: E = self.entries[i];
            self.entries.set(i, entry.add(rhs));
            i += 1;
        }
        proof {
            E::lemma_parameters();
            assert(self@ =~= vec_add_scalar(old(self)@, rhs.value(), modulus::<E>()));
            lemma_entrywise_reduced(old(self)@, old(self)@, rhs.value(), modulus::<E>());
        }
    }

    /// The vector with `rhs` added to every entry.
    pub fn add_scalar(self, rhs: E) -> (r: Self)
        requires
            self.wf(),
            rhs.value() < E::CARDINALITY,
        ensures
            r@ == vec_add_scalar(self@, rhs.value(), modulus::<E>()),
            r.wf(),
    {
        let mut out: Self = self;
        out.add_scalar_assign(rhs);
        out
    }

    /// Multiplies each entry by the entry of `rhs` at the same place.
    pub fn mul_assign(&mut self, rhs: &Self)
        requires
            old(self).wf(),
            rhs.wf(),
            old(self)@.len() == rhs@.len(),
        ensures
            final(self)@ == vec_mul(old(self)@, rhs@, modulus::<E>()),
            final(self).wf(),
    {
        let n: usize = self.entries.len();
        let mut i: usize = 0;
        while i < n
            invariant
                i <= n,
                n == self.entries@.len(),
                n == old(self).entries@.len(),
                n == rhs.entries@.len(),
                old(self).wf(),
                rhs.wf(),
                forall|j: int|
                    0 <= j < i ==> (#[trigger] self.entries@[j]).value() == vec_mul(
                        old(self)@,
                        rhs@,
                        modulus::<E>(),
                    )[j],
                forall|j: int| i <= j < n ==> #[trigger] self.entries@[j] == old(self).entries@[j],
            decreases n - i,
        {
            assert(old(self)@[i as int] < modulus::<E>());
            assert(rhs@[i as int] < modulus::<E>());
            let entry: E = self.entries[i];
            self.entries.set(i, entry.mul(rhs.entries[i]));
            i += 1;
        }
        proof {
            E::lemma_parameters();
            assert(self@ =~= vec_mul(old(self)@, rhs@, modulus::<E>()));
            lemma_entrywise_reduced(old(self)@, rhs@, 0, modulus::<E>());
        }
    }

    /// The entrywise product of the vector and `rhs`.
    pub fn mul(self, rhs: &Self) -> (r: Self)
        requires
            self.wf(),
            rhs.wf(),
            self@.len() == rhs@.len(),
        ensures
            r@ == vec_mul(self@, rhs@, modulus::<E>()),
            r.wf(),
    {
        let mut out: Self = self;
        out.mul_assign(rhs);
        out
    }

    /// Adds to each entry the entry of `rhs` at the same place.
    pub fn add_assign(&mut self, rhs: &Self)
        requires
            old(self).wf(),
            rhs.wf(),
            old(self)@.len() == rhs@.len(),
        ensures
            final(self)@ == vec_add(old(self)@, rhs@, modulus::<E>()),
            final(self).wf(),
    {
        let n: usize = self.entries.len();
        let mut i: usize = 0;
        while i < n
            invariant
                i <= n,
                n == self.entries@.len(),
                n == old(self).entries@.len(),
                n == rhs.entries@.len(),
                old(self).wf(),
                rhs.wf(),
                forall|j: int|
                    0 <= j < i ==> (#[trigger] self.entries@[j]).value() == vec_add(
                        old(self)@,
                        rhs@,
                        modulus::<E>(),
                    )[j],
                forall|j: int| i <= j < n ==> #[trigger] self.entries@[j] == old(self).entries@[j],
            decreases n - i,
        {
            assert(old(self)@[i as int] < modulus::<E>());
            assert(rhs@[i as int] < modulus::<E>());
            let entry: E = self.entries[i];
            self.entries.set(i, entry.add(rhs.entries[i]));
            i += 1;
        }
        proof {
            E::lemma_parameters();
            assert(self@ =~= vec_add(old(self)@, rhs@, modulus::<E>()));
            lemma_entrywise_reduced(old(self)@, rhs@, 0, modulus::<E>());
        }
    }

    /// The entrywise sum of the vector and `rhs`.
    pub fn add(self, rhs: &Self) -> (r: Self)
        requires
            self.wf(),
            rhs.wf(),
            self@.len() == rhs@.len(),
        ensures
            r@ == vec_add(self@, rhs@, modulus::<E>()),
            r.wf(),
    {
        let mut out: Self = self;
        out.add_assign(rhs);
        out
    }

    /// Subtracts from each entry the entry of `rhs` at the same place.
    pub fn sub_assign(&mut self, rhs: &Self)
        requires
            old(self).wf(),
            rhs.wf(),
            old(self)@.len() == rhs@.len(),
        ensures
            final(self)@ == vec_sub(old(self)@, rhs@, modulus::<E>()),
            final(self).wf(),
    {
        let n: usize = self.entries.len();
        let mut i: usize = 0;
        while i < n
            invariant
                i <= n,
                n == self.entries@.len(),
                n == old(self).entries@.len(),
                n == rhs.entries@.len(),
                old(self).wf(),
                rhs.wf(),
                forall|j: int|
                    0 <= j < i ==> (#[trigger] self.entries@[j]).value() == vec_sub(
                        old(self)@,
                        rhs@,
                        modulus::<E>(),
                    )[j],
                forall|j: int| i <= j < n ==> #[trigger] self.entries@[j] == old(self).entries@[j],
            decreases n - i,
        {
            assert(old(self)@[i as int] < modulus::<E>());
            assert(rhs@[i as int] < modulus::<E>());
            let entry: E = self.entries[i];
            self.entries.set(i, entry.sub(rhs.entries[i]));
            i += 1;
        }
        proof {
            E::lemma_parameters();
            assert(self@ =~= vec_sub(old(self)@, rhs@, modulus::<E>()));
            lemma_entrywise_reduced(old(self)@, rhs@, 0, modulus::<E>());
        }
    }

    /// The entrywise difference of the vector and `rhs`.
    pub fn sub(self, rhs: &Self) -> (r: Self)
        requires
            self.wf(),
            rhs.wf(),
            self@.len() == rhs@.len(),
        ensures
            r@ == vec_sub(self@, rhs@, modulus::<E>()),
            r.wf(),
    {
        let mut out: Self = self;
        out.sub_assign(rhs);
        out
    }

    /// Do the two vectors have the same length and, place by place, entries
    /// at the same distance from zero?
    pub fn is_zero_equidistant(&self, other: &Self) -> (b: bool)
        requires
            self.wf(),
            other.wf(),
        ensures
            b == (self@.len() == other@.len() && forall|i: int|
                0 <= i < self@.len() ==> zero_distance(#[trigger] self@[i], modulus::<E>())
                    == zero_distance(other@[i], modulus::<E>())),
    {
        if self.entries.len() != other.entries.len() {
            return false;
        }
        let mut i: usize = 0;
        while i < self.entries.len()
            invariant
                self.wf(),
                other.wf(),
                i <= self.entries@.len(),
                self.entries@.len() == other.entries@.len(),
                forall|j: int|
                    0 <= j < i ==> zero_distance(#[trigger] self@[j], modulus::<E>())
                        == zero_distance(other@[j], modulus::<E>()),
            decreases self.entries@.len() - i,
        {
            assert(self@[i as int] < modulus::<E>());
            assert(other@[i as int] < modulus::<E>());
            if self.entries[i].zero_dist() != other.entries[i].zero_dist() {
                return false;
            }
            i += 1;
        }
        true
    }
}

impl<E: Element> Clone for Vector<E> {
    /// A vector with the same entries.
    fn clone(&self) -> (r: Self)
        ensures
            r.elements() == self.elements(),
            r@ == self@,
    {
        let mut entries: Vec<E> = Vec::new();
        let mut i: usize = 0;
        while i < self.entries.len()
            invariant
                i <= self.entries@.len(),
                entries@ == self.entries@.subrange(0, i as int),
            decreases self.entries@.len() - i,
        {
            entries.push(self.entries[i]);
            i += 1;
        }
        assert(entries@ == self.entries@);
        Vector { entries }
    }
}

impl<E: Element> PartialEq for Vector<E> {
    /// Two vectors are equal when they have the same length and, place by
    /// place, entries of the same value.
    fn eq(&self, other: &Self) -> (r: bool) {
        if self.entries.len() != other.entries.len() {
            assert(self@.len() != other@.len());
            return false;
        }
        let mut i: usize = 0;
        while i < self.entries.len()
            invariant
                i <= self.entries@.len(),
                self.entries@.len() == other.entries@.len(),
                forall|j: int| 0 <= j < i ==> self@[j] == other@[j],
            decreases self.entries@.len() - i,
        {
            if self.entries[i].to_u128() != other.entries[i].to_u128() {
                assert(self@[i as int] != other@[i as int]);
                return false;
            }
            i += 1;
        }
        assert(self@ =~= other@);
        true
    }
}

impl<E: Element> PartialEqSpecImpl for Vector<E> {
    open spec fn obeys_eq_spec() -> bool {
        true
    }

    open spec fn eq_spec(&self, other: &Self) -> bool {
        self@ == other@
    }
}

impl<E: Element> From<Vec<E>> for Vector<E> {
    /// The vector with the entries of `value`.
    fn from(value: Vec<E>) -> (r: Self)
        ensures
            r.elements() == value@,
    {
        Self { entries: value }
    }
}

impl<E: Element> FromSpecImpl<Vec<E>> for Vector<E> {
    open spec fn obeys_from_spec() -> bool {
        true
    }

    closed spec fn from_spec(value: Vec<E>) -> Self {
        Vector { entries: value }
    }
}

impl<E: Element> From<E> for Vector<E> {
    /// The vector whose one entry is `value`.
    fn from(value: E) -> (r: Self)
        ensures
            r.elements() == seq![value],
    {
        let mut entries: Vec<E> = Vec::new();
        entries.push(value);
        Self { entries }
    }
}

impl<E: Element> FromSpecImpl<E> for Vector<E> {
    open spec fn obeys_from_spec() -> bool {
        false
    }

    open spec fn from_spec(value: E) -> Self {
        arbitrary()
    }
}

} // verus!
