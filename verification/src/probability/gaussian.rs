//! A cumulative distribution table over signed displacements, and a cache of
//! such tables.
//!
//! A table covers the displacements `-D ..= D`, where `D` is thirteen times
//! the width parameter, rounded up. The width parameter is held as its key:
//! the parameter times 10^5, as an integer. The mass of each displacement is
//! an integer weight that the caller supplies; the table stores the running
//! totals of those weights, which must fit in 64 bits, so that
//! probabilities are exact ratios of integers.

use crate::element::Element;
use crate::error::Error;
use crate::modular::at_signed_displacement;
use crate::random::random_below;
use rand::rngs::StdRng;
use vstd::prelude::*;

verus! {

/// A width parameter is keyed by this multiple of itself.
pub const THETA_SCALE: u64 = 100_000;

/// The table is cut off at this many widths from zero.
pub const TAIL_WIDTHS: u64 = 13;

/// The largest displacement of a table: `TAIL_WIDTHS` times the width
/// parameter, rounded up.
pub open spec fn tail_bound_of(theta_key: nat) -> nat {
    ((TAIL_WIDTHS as int * theta_key + (THETA_SCALE as int - 1)) / (THETA_SCALE as int)) as nat
}

/// Sum of the first `n` weights.
pub open spec fn weight_before(weights: Seq<u64>, n: int) -> nat
    decreases n,
{
    if n <= 0 {
        0
    } else {
        weight_before(weights, n - 1) + weights[n - 1] as nat
    }
}

/// The running total never decreases.
pub proof fn lemma_weight_before_grows(weights: Seq<u64>, m: int, n: int)
    requires
        0 <= m <= n <= weights.len(),
    ensures
        weight_before(weights, m) <= weight_before(weights, n),
    decreases n,
{
    if m < n {
        lemma_weight_before_grows(weights, m, n - 1);
    }
}

/// The largest displacement of the table for a width key.
pub fn tail_bound(theta_key: u32) -> (d: i32)
    ensures
        d == tail_bound_of(theta_key as nat),
        (d >= 1) == (theta_key >= 1),
        0 <= d <= 558_346,
{
    let scaled: u64 = TAIL_WIDTHS * (theta_key as u64) + (THETA_SCALE - 1);
    let d: u64 = scaled / THETA_SCALE;
    d as i32
}

/// A cumulative distribution table for a ring of `cardinality` elements and
/// the width parameter `theta_key / 10^5`.
///
/// Entry `i` of `displacements` holds the displacement `i - D` and the sum
/// of the weights of all smaller displacements. `normalized_sum` is the sum
/// of all weights: the mass that the thresholds are read against.
#[derive(Debug)]
pub struct GaussianCDT {
    pub cardinality: u128,
    pub theta_key: u32,
    pub displacements: Vec<(u64, i32)>,
    pub normalized_sum: u64,
}

impl GaussianCDT {
    /// The largest displacement of this table.
    pub open spec fn tail(&self) -> int {
        tail_bound_of(self.theta_key as nat) as int
    }

    /// The table is well formed: it covers `-D ..= D` in order, its
    /// thresholds start at zero, never decrease and stay within the total
    /// mass, and some bucket is not empty.
    pub open spec fn wf(&self) -> bool {
        &&& self.tail() >= 1
        &&& self.displacements@.len() == 2 * self.tail() + 1
        &&& forall|i: int|
            0 <= i < self.displacements@.len() ==> (#[trigger] self.displacements@[i]).1 == i
                - self.tail()
        &&& self.displacements@[0].0 == 0
        &&& forall|i: int, j: int|
            0 <= i <= j < self.displacements@.len() ==> (#[trigger] self.displacements@[i]).0 <= (
            #[trigger] self.displacements@[j]).0
        &&& self.displacements@[2 * self.tail()].0 <= self.normalized_sum
        &&& self.displacements@[2 * self.tail()].0 > 0
    }

    /// Mass of the bucket of a displacement: the distance from its
    /// threshold to the next one. The largest displacement has no next
    /// threshold and so no bucket; neither has a displacement outside the
    /// table.
    pub open spec fn bucket_weight(&self, disp: int) -> nat {
        if -self.tail() <= disp < self.tail() {
            (self.displacements@[disp + self.tail() + 1].0 - self.displacements@[disp
                + self.tail()].0) as nat
        } else {
            0
        }
    }

    /// A draw can land on the displacement: it has a bucket, and the
    /// bucket is not empty.
    pub open spec fn can_draw(&self, disp: int) -> bool {
        -self.tail() <= disp < self.tail() && self.bucket_weight(disp) > 0
    }

    /// The weights that a table for `theta_key` can be built from: one for
    /// each displacement of `-D ..= D`, with `D` at least one, not all of
    /// those below `D` zero, and with a sum that fits in 64 bits.
    pub open spec fn valid_parameters(theta_key: u32, weights: Seq<u64>) -> bool {
        let d = tail_bound_of(theta_key as nat);
        &&& d >= 1
        &&& weights.len() == 2 * d + 1
        &&& weight_before(weights, 2 * d as int) > 0
        &&& weight_before(weights, weights.len() as int) <= u64::MAX
    }

    /// `self` is the table that `weights` give for a ring of `cardinality`
    /// elements and the width key `theta_key`.
    pub open spec fn is_table_of(&self, cardinality: u128, theta_key: u32, weights: Seq<u64>) -> bool {
        &&& self.cardinality == cardinality
        &&& self.theta_key == theta_key
        &&& self.displacements@.len() == weights.len()
        &&& forall|i: int|
            0 <= i < weights.len() ==> #[trigger] self.displacements@[i] == (
                weight_before(weights, i) as u64,
                (i - tail_bound_of(theta_key as nat)) as i32,
            )
        &&& self.normalized_sum == weight_before(weights, weights.len() as int)
    }

    /// Is the table well formed? A table that [`GaussianCDT::new`] built
    /// is; one whose public fields were set by hand need not be.
    pub fn well_formed(&self) -> (ok: bool)
        ensures
            ok == self.wf(),
    {
        let dist: i32 = tail_bound(self.theta_key);
        if dist < 1 {
            return false;
        }
        let len: usize = 2 * (dist as usize) + 1;
        if self.displacements.len() != len {
            return false;
        }
        if self.displacements[0].0 != 0 {
            return false;
        }
        let mut i: usize = 0;
        while i < len
            invariant
                i <= len,
                len == self.displacements@.len(),
                len == 2 * self.tail() + 1,
                dist == self.tail(),
                1 <= dist <= 558_346,
                forall|k: int|
                    0 <= k < i ==> (#[trigger] self.displacements@[k]).1 == k - self.tail(),
                forall|a: int, b: int|
                    0 <= a <= b < i ==> (#[trigger] self.displacements@[a]).0 <= (
                    #[trigger] self.displacements@[b]).0,
            decreases len - i,
        {
            if self.displacements[i].1 != (i as i32) - dist {
                return false;
            }
            if i > 0 && self.displacements[i - 1].0 > self.displacements[i].0 {
                return false;
            }
            proof {
                assert forall|a: int, b: int| 0 <= a <= b < i + 1 implies (
                #[trigger] self.displacements@[a]).0 <= (#[trigger] self.displacements@[b]).0 by {
                    if b == i && a < i {
                        assert(self.displacements@[a].0 <= self.displacements@[i - 1].0);
                    }
                }
            }
            i += 1;
        }
        let last: u64 = self.displacements[len - 1].0;
        last <= self.normalized_sum && last > 0
    }

    /// Can a table for `theta_key` be built from `weights`?
    pub fn parameters_valid(theta_key: u32, weights: &[u64]) -> (ok: bool)
        ensures
            ok == Self::valid_parameters(theta_key, weights@),
    {
        let dist: i32 = tail_bound(theta_key);
        if dist < 1 {
            return false;
        }
        let below: usize = 2 * (dist as usize);
        if weights.len() != below + 1 {
            return false;
        }
        let mut total: u64 = 0;
        let mut i: usize = 0;
        while i < below
            invariant
                i <= below,
                below == 2 * tail_bound_of(theta_key as nat),
                weights@.len() == below + 1,
                total == weight_before(weights@, i as int),
            decreases below - i,
        {
            if weights[i] > u64::MAX - total {
                proof {
                    lemma_weight_before_grows(weights@, i as int + 1, weights@.len() as int);
                }
                return false;
            }
            total = total + weights[i];
            i += 1;
        }
        total > 0 && weights[below] <= u64::MAX - total
    }

    /// Builds the table for a ring and a width key from the weights of its
    /// displacements, smallest displacement first.
    pub fn new<F: Element>(theta_key: u32, weights: &[u64]) -> (cdt: Self)
        requires
            Self::valid_parameters(theta_key, weights@),
        ensures
            cdt.wf(),
            cdt.is_table_of(F::CARDINALITY, theta_key, weights@),
    {
        let dist: i32 = tail_bound(theta_key);
        let mut displacements: Vec<(u64, i32)> = Vec::new();
        let mut total: u64 = 0;
        let mut i: usize = 0;
        while i < weights.len()
            invariant
                i <= weights@.len(),
                dist == tail_bound_of(theta_key as nat),
                1 <= dist <= 558_346,
                weights@.len() == 2 * dist + 1,
                weight_before(weights@, weights@.len() as int) <= u64::MAX,
                total == weight_before(weights@, i as int),
                displacements@.len() == i,
                forall|j: int|
                    0 <= j < i ==> #[trigger] displacements@[j] == (
                        weight_before(weights@, j) as u64,
                        (j - dist) as i32,
                    ),
            decreases weights@.len() - i,
        {
            proof {
                lemma_weight_before_grows(weights@, i as int + 1, weights@.len() as int);
            }
            let disp: i32 = (i as i32) - dist;
            displacements.push((total, disp));
            total = total + weights[i];
            i += 1;
        }
        let cdt = Self {
            cardinality: F::CARDINALITY,
            theta_key,
            displacements,
            normalized_sum: total,
        };
        proof {
            assert forall|a: int, b: int| 0 <= a <= b < cdt.displacements@.len() implies (
            #[trigger] cdt.displacements@[a]).0 <= (#[trigger] cdt.displacements@[b]).0 by {
                lemma_weight_before_grows(weights@, a, b);
                lemma_weight_before_grows(weights@, b, weights@.len() as int);
            }
            lemma_weight_before_grows(weights@, 2 * dist as int, weights@.len() as int);
            assert(cdt.displacements@[2 * dist as int].0 == weight_before(
                weights@,
                2 * dist as int,
            ));
            assert(cdt.displacements@[0].0 == 0);
        }
        cdt
    }

    /// The displacement whose bucket holds the draw `r`, found by walking
    /// the thresholds from the smallest displacement up; `None` when `r`
    /// lies at or beyond the last threshold, outside every bucket.
    pub fn displacement_at(&self, r: u64) -> (d: Option<i32>)
        requires
            self.wf(),
        ensures
            d is Some <==> r < self.displacements@[2 * self.tail()].0,
            d matches Some(x) ==> {
                &&& -self.tail() <= x < self.tail()
                &&& self.displacements@[x + self.tail()].0 <= r < self.displacements@[x
                    + self.tail() + 1].0
            },
    {
        let mut i: usize = 0;
        while i < self.displacements.len() - 1
            invariant
                self.wf(),
                0 <= i <= self.displacements@.len() - 1,
                self.displacements@[i as int].0 <= r,
            decreases self.displacements@.len() - i,
        {
            let (last_prob, disp) = self.displacements[i];
            let (next_prob, _) = self.displacements[i + 1];
            if r >= last_prob && r < next_prob {
                proof {
                    let top = 2 * self.tail();
                    assert(self.displacements@[i + 1].0 <= self.displacements@[top].0);
                }
                return Some(disp);
            }
            i += 1;
        }
        None
    }

    /// Draws a displacement from the table.
    ///
    /// The draw is uniform below the total mass. It fails, with
    /// [`Error::InvariantViolation`], when it lands outside every bucket,
    /// which only a table whose last threshold is below its total mass
    /// allows.
    pub fn sample_displacement(&self, rng: &mut StdRng) -> (s: Result<i32, Error>)
        requires
            self.wf(),
        ensures
            match s {
                Ok(x) => self.can_draw(x as int),
                Err(err) => {
                    &&& err == Error::InvariantViolation
                    &&& self.displacements@[2 * self.tail()].0 < self.normalized_sum
                },
            },
    {
        let r: u64 = random_below(rng, self.normalized_sum);
        match self.displacement_at(r) {
            Some(disp) => Ok(disp),
            None => Err(Error::InvariantViolation),
        }
    }

    /// Draws a displacement from the table and places it in the ring `F`:
    /// at the displacement itself when that is not negative, at the
    /// cardinality plus the displacement when it is. It fails as
    /// [`GaussianCDT::sample_displacement`] does.
    pub fn sample<F: Element>(&self, rng: &mut StdRng) -> (s: Result<F, Error>)
        requires
            self.wf(),
        ensures
            match s {
                Ok(e) => (exists|x: int| #[trigger]
                    self.can_draw(x) && e.value() == at_signed_displacement(
                        x,
                        F::CARDINALITY as nat,
                    )),
                Err(err) => {
                    &&& err == Error::InvariantViolation
                    &&& self.displacements@[2 * self.tail()].0 < self.normalized_sum
                },
            },
    {
        match self.sample_displacement(rng) {
            Ok(disp) => {
                let e: F = F::at_displacement(disp);
                assert(self.can_draw(disp as int));
                Ok(e)
            },
            Err(err) => Err(err),
        }
    }

    /// Mass of the bucket of a displacement, out of `normalized_sum`: the
    /// chance that [`GaussianCDT::sample`] lands on it.
    pub fn prob(&self, disp: i32) -> (p: u64)
        requires
            self.wf(),
        ensures
            p == self.bucket_weight(disp as int),
    {
        let mut i: usize = 1;
        while i < self.displacements.len()
            invariant
                self.wf(),
                1 <= i <= self.displacements@.len(),
                forall|j: int| 0 <= j < i - 1 ==> (#[trigger] self.displacements@[j]).1 != disp,
            decreases self.displacements@.len() - i,
        {
            let (last_prob, last_disp) = self.displacements[i - 1];
            let (next_prob, _) = self.displacements[i];
            if last_disp == disp {
                return next_prob - last_prob;
            }
            i += 1;
        }
        proof {
            if -self.tail() <= disp < self.tail() {
                assert(self.displacements@[disp + self.tail()].1 == disp);
            }
        }
        0
    }
}

impl Clone for GaussianCDT {
    /// A table with the same key, thresholds and total mass.
    fn clone(&self) -> (r: Self)
        ensures
            r.cardinality == self.cardinality,
            r.theta_key == self.theta_key,
            r.displacements@ == self.displacements@,
            r.normalized_sum == self.normalized_sum,
    {
        let mut displacements: Vec<(u64, i32)> = Vec::new();
        let mut i: usize = 0;
        while i < self.displacements.len()
            invariant
                i <= self.displacements@.len(),
                displacements@ == self.displacements@.subrange(0, i as int),
            decreases self.displacements@.len() - i,
        {
            displacements.push(self.displacements[i]);
            i += 1;
        }
        assert(displacements@ == self.displacements@);
        Self {
            cardinality: self.cardinality,
            theta_key: self.theta_key,
            displacements,
            normalized_sum: self.normalized_sum,
        }
    }
}

} // verus!
