//! A cache of cumulative distribution tables, keyed by the cardinality of
//! the ring and the width key. A table is built once for each key and then
//! shared by every caller that asks for it.

use crate::element::Element;
use crate::probability::gaussian::GaussianCDT;
use std::collections::HashMap;
use std::sync::Arc;
use vstd::prelude::*;

verus! {

broadcast use vstd::std_specs::hash::group_hash_axioms;

/// The key under which a table is cached.
pub open spec fn key_of(table: GaussianCDT) -> (u128, u32) {
    (table.cardinality, table.theta_key)
}

/// What a request for the table of `key` does: where the cache holds one,
/// that table is returned and the cache stays as it is; where it holds
/// none, `table` is stored under `key` and returned.
pub open spec fn served(
    before: Map<(u128, u32), GaussianCDT>,
    key: (u128, u32),
    table: GaussianCDT,
    after: Map<(u128, u32), GaussianCDT>,
) -> bool {
    if before.contains_key(key) {
        after == before && table == before[key]
    } else {
        after == before.insert(key, table)
    }
}

/// Two requests for the same key are served the same table, and the second
/// leaves the cache as the first left it, whatever the second would have
/// built.
pub proof fn lemma_same_key_same_table(
    before: Map<(u128, u32), GaussianCDT>,
    key: (u128, u32),
    first: GaussianCDT,
    between: Map<(u128, u32), GaussianCDT>,
    second: GaussianCDT,
    after: Map<(u128, u32), GaussianCDT>,
)
    requires
        served(before, key, first, between),
        served(between, key, second, after),
    ensures
        second == first,
        after == between,
{
}

/// The tables built so far: for each cardinality, the tables of its rings
/// by width key.
pub struct CdtCache {
    tables: HashMap<u128, HashMap<u32, Arc<GaussianCDT>>>,
}

impl View for CdtCache {
    type V = Map<(u128, u32), GaussianCDT>;

    /// The tables by cardinality and width key.
    closed spec fn view(&self) -> Map<(u128, u32), GaussianCDT> {
        Map::new(
            |key: (u128, u32)|
                self.tables@.contains_key(key.0) && self.tables@[key.0]@.contains_key(key.1),
            |key: (u128, u32)| *self.tables@[key.0]@[key.1],
        )
    }
}

impl CdtCache {
    /// Every table of the cache is well formed and stored under its own
    /// key.
    pub closed spec fn wf(&self) -> bool {
        forall|key: (u128, u32)| #[trigger]
            self@.contains_key(key) ==> self@[key].wf() && key_of(self@[key]) == key
    }

    /// Every table that the cache serves is well formed and stored under
    /// its own key.
    pub proof fn lemma_tables_wf(&self, key: (u128, u32))
        requires
            self.wf(),
            self@.contains_key(key),
        ensures
            self@[key].wf(),
            key_of(self@[key]) == key,
    {
    }

    /// A cache without tables.
    pub fn new() -> (cache: Self)
        ensures
            cache.wf(),
            cache@ == Map::<(u128, u32), GaussianCDT>::empty(),
    {
        let cache = Self { tables: HashMap::new() };
        assert(cache@ =~= Map::<(u128, u32), GaussianCDT>::empty());
        cache
    }

    /// The table cached for a ring of `cardinality` elements and the width
    /// key `theta_key`, if there is one.
    pub fn get(&self, cardinality: u128, theta_key: u32) -> (found: Option<&Arc<GaussianCDT>>)
        requires
            self.wf(),
        ensures
            match found {
                Some(table) => {
                    &&& self@.contains_key((cardinality, theta_key))
                    &&& **table == self@[(cardinality, theta_key)]
                    &&& table.wf()
                    &&& key_of(**table) == (cardinality, theta_key)
                },
                None => !self@.contains_key((cardinality, theta_key)),
            },
    {
        match self.tables.get(&cardinality) {
            Some(of_ring) => {
                let found = of_ring.get(&theta_key);
                assert(found is Some ==> self@.contains_key((cardinality, theta_key)));
                found
            },
            None => None,
        }
    }

    /// Stores a table under its own key. A table stored there before is no
    /// longer served.
    pub fn insert(&mut self, table: GaussianCDT)
        requires
            old(self).wf(),
            table.wf(),
        ensures
            final(self).wf(),
            final(self)@ == old(self)@.insert(key_of(table), table),
    {
        let cardinality: u128 = table.cardinality;
        let theta_key: u32 = table.theta_key;
        let ghost stored = table;
        let mut of_ring: HashMap<u32, Arc<GaussianCDT>> = match self.tables.remove(&cardinality) {
            Some(held) => held,
            None => HashMap::new(),
        };
        of_ring.insert(theta_key, Arc::new(table));
        self.tables.insert(cardinality, of_ring);
        proof {
            assert(self@ =~= old(self)@.insert((cardinality, theta_key), stored));
            assert forall|key: (u128, u32)| #[trigger] self@.contains_key(key) implies self@[key].wf()
                && key_of(self@[key]) == key by {
                if key != (cardinality, theta_key) {
                    assert(old(self)@.contains_key(key));
                }
            }
        }
    }

    /// Does the cache hold a table for this key?
    pub fn contains(&self, cardinality: u128, theta_key: u32) -> (held: bool)
        requires
            self.wf(),
        ensures
            held == self@.contains_key((cardinality, theta_key)),
    {
        self.get(cardinality, theta_key).is_some()
    }

    /// The table for the ring `F` and the width key `theta_key`: the one
    /// that the cache holds, or else the one that `weights` give, which is
    /// then stored. `weights` are not read where the cache holds a table.
    pub fn get_or_build<F: Element>(&mut self, theta_key: u32, weights: &[u64]) -> (table: &Arc<
        GaussianCDT,
    >)
        requires
            old(self).wf(),
            GaussianCDT::valid_parameters(theta_key, weights@),
        ensures
            final(self).wf(),
            table.wf(),
            key_of(**table) == (F::CARDINALITY, theta_key),
            served(old(self)@, (F::CARDINALITY, theta_key), **table, final(self)@),
            !old(self)@.contains_key((F::CARDINALITY, theta_key)) ==> table.is_table_of(
                F::CARDINALITY,
                theta_key,
                weights@,
            ),
    {
        if !self.contains(F::CARDINALITY, theta_key) {
            let fresh: GaussianCDT = GaussianCDT::new::<F>(theta_key, weights);
            self.insert(fresh);
        }
        self.get(F::CARDINALITY, theta_key).unwrap()
    }
}

} // verus!
