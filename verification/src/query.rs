//! The query engine.
//!
//! A query collects requested component types, ORs their bits into a
//! required mask, and scans the entity directory for every entity
//! whose signature is a superset of that mask. It returns either
//! columnar value snapshots, one aligned column per requested type, or
//! per-entity accessor handles.

use vstd::prelude::*;

use crate::entities::Entities;
use crate::error::EcsError;
use crate::signature::{
    bit_set, lemma_bit_or, lemma_bit_single, lemma_superset_bit, signature_matches,
};

verus! {

/// The OR of the one-bit masks of the requested types, in request
/// order.
pub open spec fn query_mask<C: Copy>(entities: Entities<C>, type_ids: Seq<u64>) -> u32
    decreases type_ids.len(),
{
    if type_ids.len() == 0 {
        0u32
    } else {
        query_mask(entities, type_ids.drop_last()) | entities.mask_of(type_ids.last())
    }
}

/// The ascending list of entity indexes below `n` whose signature
/// matches `mask`.
pub open spec fn matched_upto(sigs: Seq<u32>, mask: u32, n: int) -> Seq<int>
    decreases n,
{
    if n <= 0 {
        Seq::empty()
    } else if signature_matches(sigs[n - 1], mask) {
        matched_upto(sigs, mask, n - 1).push(n - 1)
    } else {
        matched_upto(sigs, mask, n - 1)
    }
}

/// What `matched_upto` holds: exactly the matching indexes below `n`,
/// each once, in ascending order.
pub proof fn lemma_matched_upto(sigs: Seq<u32>, mask: u32, n: int)
    requires
        0 <= n <= sigs.len(),
    ensures
        forall|j: int|
            0 <= j < matched_upto(sigs, mask, n).len() ==> {
                let e = #[trigger] matched_upto(sigs, mask, n)[j];
                0 <= e < n && signature_matches(sigs[e], mask)
            },
        forall|e: int|
            0 <= e < n && signature_matches(#[trigger] sigs[e], mask) ==> matched_upto(
                sigs,
                mask,
                n,
            ).contains(e),
        forall|j1: int, j2: int|
            0 <= j1 < j2 < matched_upto(sigs, mask, n).len() ==> matched_upto(sigs, mask, n)[j1]
                < matched_upto(sigs, mask, n)[j2],
    decreases n,
{
    if n > 0 {
        lemma_matched_upto(sigs, mask, n - 1);
        let prev = matched_upto(sigs, mask, n - 1);
        let cur = matched_upto(sigs, mask, n);
        assert forall|e: int|
            0 <= e < n && signature_matches(#[trigger] sigs[e], mask) implies cur.contains(e) by {
            if e < n - 1 {
                assert(prev.contains(e));
                let j = choose|j: int| 0 <= j < prev.len() && prev[j] == e;
                assert(cur[j] == e);
            } else {
                assert(signature_matches(sigs[n - 1], mask));
                assert(cur[cur.len() - 1] == e);
            }
        }
    }
}

/// Every requested type's bit is set in the query mask.
pub proof fn lemma_query_mask_bit<C: Copy>(entities: Entities<C>, type_ids: Seq<u64>, k: int)
    requires
        entities.wf(),
        forall|i: int| 0 <= i < type_ids.len() ==> entities.is_registered(#[trigger] type_ids[i]),
        0 <= k < type_ids.len(),
    ensures
        bit_set(query_mask(entities, type_ids), entities.position_of(type_ids[k]) as u32),
    decreases type_ids.len(),
{
    let last = type_ids.last();
    let pos_last = entities.position_of(last);
    assert(0 <= pos_last < entities.registered@.len());
    let prev = query_mask(entities, type_ids.drop_last());
    if k == type_ids.len() - 1 {
        lemma_bit_single(pos_last as u32, pos_last as u32);
        lemma_bit_or(prev, entities.mask_of(last), pos_last as u32);
    } else {
        lemma_query_mask_bit(entities, type_ids.drop_last(), k);
        let pos_k = entities.position_of(type_ids[k]);
        assert(type_ids.drop_last()[k] == type_ids[k]);
        lemma_bit_or(prev, entities.mask_of(last), pos_k as u32);
    }
}

/// Query superset law: an entity is matched by a query exactly when
/// its signature is a bitwise superset of the OR of the requested
/// types' bits; in particular no entity with a non-superset signature
/// is ever returned.
pub proof fn lemma_query_superset<'a, C: Copy>(q: Query<'a, C>, e: int)
    requires
        q.wf(),
        0 <= e < q.entities.num_entities(),
    ensures
        q.matched().contains(e) <==> signature_matches(
            q.entities.signature(e),
            query_mask(*q.entities, q.type_ids@),
        ),
{
    let sigs = q.entities.entity_bitmasks@;
    lemma_matched_upto(sigs, q.mask, sigs.len() as int);
    if q.matched().contains(e) {
        let j = choose|j: int| 0 <= j < q.matched().len() && q.matched()[j] == e;
        assert(0 <= q.matched()[j] < sigs.len() && signature_matches(sigs[q.matched()[j]], q.mask));
    }
}

/// A query under construction against one entity directory.
pub struct Query<'a, C: Copy> {
    /// The directory the query runs against.
    pub entities: &'a Entities<C>,
    /// The OR of the requested types' bits.
    pub mask: u32,
    /// The requested type keys, in request order.
    pub type_ids: Vec<u64>,
}

impl<'a, C: Copy> Query<'a, C> {
    /// The query's invariant: the directory is well formed, every
    /// requested type is registered, and the mask is the OR of their
    /// bits.
    pub open spec fn wf(self) -> bool {
        &&& self.entities.wf()
        &&& forall|k: int|
            0 <= k < self.type_ids@.len() ==> self.entities.is_registered(
                #[trigger] self.type_ids@[k],
            )
        &&& self.mask == query_mask(*self.entities, self.type_ids@)
    }

    /// The ascending list of entity indexes the query matches.
    pub open spec fn matched(self) -> Seq<int> {
        matched_upto(
            self.entities.entity_bitmasks@,
            self.mask,
            self.entities.entity_bitmasks@.len() as int,
        )
    }

    /// A fresh query against `entities`, requesting nothing yet.
    pub fn new(entities: &'a Entities<C>) -> (q: Query<'a, C>)
        requires
            entities.wf(),
        ensures
            q.wf(),
            q.entities == entities,
            q.mask == 0u32,
            q.type_ids@ == Seq::<u64>::empty(),
    {
        let q = Query { entities, mask: 0, type_ids: Vec::new() };
        proof {
            assert(q.type_ids@ =~= Seq::<u64>::empty());
        }
        q
    }

    /// Add the type named by `type_id` to the request: OR its bit into
    /// the mask. Fails when the key was never registered.
    pub fn with_component(&mut self, type_id: u64) -> (r: Result<(), EcsError>)
        requires
            old(self).wf(),
        ensures
            final(self).wf(),
            final(self).entities == old(self).entities,
            match r {
                Ok(()) => {
                    &&& old(self).entities.is_registered(type_id)
                    &&& final(self).type_ids@ == old(self).type_ids@.push(type_id)
                    &&& final(self).mask == (old(self).mask | old(self).entities.mask_of(type_id))
                },
                Err(e) => e == EcsError::UnregisteredComponent && !old(self).entities.is_registered(
                    type_id,
                ) && *final(self) == *old(self),
            },
    {
        match self.entities.get_component_bitmask(type_id) {
            Err(e) => Err(e),
            Ok(bit) => {
                self.mask = self.mask | bit;
                self.type_ids.push(type_id);
                proof {
                    assert(self.type_ids@.drop_last() == old(self).type_ids@);
                }
                Ok(())
            },
        }
    }

    /// Run the query in columnar mode: one column per requested type,
    /// in request order, each holding the matching entities' values of
    /// that type in ascending entity order. Position `j` of every
    /// column belongs to the same entity, the `j`-th match.
    pub fn run(&self) -> (r: Vec<Vec<C>>)
        requires
            self.wf(),
        ensures
            r@.len() == self.type_ids@.len(),
            forall|k: int| 0 <= k < r@.len() ==> (#[trigger] r@[k])@.len() == self.matched().len(),
            forall|k: int, j: int|
                0 <= k < r@.len() && 0 <= j < self.matched().len() ==> Some(#[trigger] r@[k]@[j])
                    == self.entities.slot_value(
                    self.entities.position_of(self.type_ids@[k]),
                    self.matched()[j],
                ),
    {
        let sig_count = self.entities.entity_bitmasks.len();
        let mut indexes: Vec<usize> = Vec::new();
        let mut e: usize = 0;
        while e < sig_count
            invariant
                self.wf(),
                sig_count == self.entities.entity_bitmasks@.len(),
                e <= sig_count,
                indexes@.len() == matched_upto(
                    self.entities.entity_bitmasks@,
                    self.mask,
                    e as int,
                ).len(),
                forall|j: int|
                    0 <= j < indexes@.len() ==> #[trigger] indexes@[j] == matched_upto(
                        self.entities.entity_bitmasks@,
                        self.mask,
                        e as int,
                    )[j],
            decreases sig_count - e,
        {
            let sig = self.entities.entity_bitmasks[e];
            if sig & self.mask == self.mask {
                indexes.push(e);
            }
            e += 1;
        }
        proof {
            lemma_matched_upto(
                self.entities.entity_bitmasks@,
                self.mask,
                self.entities.entity_bitmasks@.len() as int,
            );
        }
        let mut result: Vec<Vec<C>> = Vec::new();
        let mut k: usize = 0;
        while k < self.type_ids.len()
            invariant
                self.wf(),
                k <= self.type_ids@.len(),
                indexes@.len() == self.matched().len(),
                forall|j: int|
                    0 <= j < indexes@.len() ==> #[trigger] indexes@[j] == self.matched()[j],
                forall|j: int|
                    0 <= j < self.matched().len() ==> {
                        let idx = #[trigger] self.matched()[j];
                        0 <= idx < self.entities.entity_bitmasks@.len() && signature_matches(
                            self.entities.entity_bitmasks@[idx],
                            self.mask,
                        )
                    },
                result@.len() == k,
                forall|k2: int, j: int|
                    0 <= k2 < k && 0 <= j < self.matched().len() ==> Some(
                        #[trigger] result@[k2]@[j],
                    ) == self.entities.slot_value(
                        self.entities.position_of(self.type_ids@[k2]),
                        self.matched()[j],
                    ),
                forall|k2: int|
                    0 <= k2 < k ==> (#[trigger] result@[k2])@.len() == self.matched().len(),
            decreases self.type_ids@.len() - k,
        {
            let type_id = self.type_ids[k];
            let comps = match self.entities.get_components(type_id) {
                Ok(v) => v,
                Err(_) => {
                    proof {
                        assert(false);
                    }
                    Vec::new()
                },
            };
            let ghost pos = self.entities.position_of(type_id);
            let mut column: Vec<C> = Vec::new();
            let mut j: usize = 0;
            while j < indexes.len()
                invariant
                    self.wf(),
                    k < self.type_ids@.len(),
                    type_id == self.type_ids@[k as int],
                    pos == self.entities.position_of(type_id),
                    self.entities.is_registered(type_id),
                    comps@.len() == self.entities.num_entities(),
                    forall|e2: int|
                        0 <= e2 < comps@.len() ==> #[trigger] comps@[e2]
                            == self.entities.slot_value(pos, e2),
                    indexes@.len() == self.matched().len(),
                    forall|j2: int|
                        0 <= j2 < indexes@.len() ==> #[trigger] indexes@[j2]
                            == self.matched()[j2],
                    forall|j2: int|
                        0 <= j2 < self.matched().len() ==> {
                            let idx = #[trigger] self.matched()[j2];
                            0 <= idx < self.entities.entity_bitmasks@.len() && signature_matches(
                                self.entities.entity_bitmasks@[idx],
                                self.mask,
                            )
                        },
                    j <= indexes@.len(),
                    column@.len() == j,
                    forall|j2: int|
                        0 <= j2 < j ==> Some(#[trigger] column@[j2]) == self.entities.slot_value(
                            pos,
                            self.matched()[j2],
                        ),
                decreases indexes@.len() - j,
            {
                let idx = indexes[j];
                proof {
                    lemma_query_mask_bit(*self.entities, self.type_ids@, k as int);
                    lemma_superset_bit(
                        self.entities.entity_bitmasks@[idx as int],
                        self.mask,
                        pos as u32,
                    );
                    assert(self.entities.slot(pos, idx as int) is Some);
                }
                match comps[idx] {
                    Some(c) => column.push(c),
                    None => {
                        proof {
                            assert(false);
                        }
                    },
                }
                j += 1;
            }
            result.push(column);
            k += 1;
        }
        result
    }

    /// Run the query in per-entity mode: one accessor handle per
    /// matching entity, in ascending entity order.
    pub fn run_entity(&self) -> (r: Vec<QueryEntity>)
        requires
            self.wf(),
        ensures
            r@.len() == self.matched().len(),
            forall|j: int| 0 <= j < r@.len() ==> (#[trigger] r@[j]).id == self.matched()[j],
    {
        let sig_count = self.entities.entity_bitmasks.len();
        let mut handles: Vec<QueryEntity> = Vec::new();
        let mut e: usize = 0;
        while e < sig_count
            invariant
                self.wf(),
                sig_count == self.entities.entity_bitmasks@.len(),
                e <= sig_count,
                handles@.len() == matched_upto(
                    self.entities.entity_bitmasks@,
                    self.mask,
                    e as int,
                ).len(),
                forall|j: int|
                    0 <= j < handles@.len() ==> (#[trigger] handles@[j]).id == matched_upto(
                        self.entities.entity_bitmasks@,
                        self.mask,
                        e as int,
                    )[j],
            decreases sig_count - e,
        {
            let sig = self.entities.entity_bitmasks[e];
            if sig & self.mask == self.mask {
                handles.push(QueryEntity::new(e));
            }
            e += 1;
        }
        handles
    }
}

/// A lightweight accessor handle for one matching entity. Component
/// access re-derives the store at call time and goes through the
/// directory's runtime borrow discipline.
pub struct QueryEntity {
    /// The entity's index.
    pub id: usize,
}

impl QueryEntity {
    /// A handle for the entity at `id`.
    pub fn new(id: usize) -> (q: QueryEntity)
        ensures
            q.id == id,
    {
        QueryEntity { id }
    }

    /// Take a shared borrow of this entity's component of the type
    /// named by `type_id`, returning a copy of its value.
    pub fn get_component<C: Copy>(&self, entities: &mut Entities<C>, type_id: u64) -> (r: Result<
        C,
        EcsError,
    >)
        requires
            old(entities).wf(),
            self.id < old(entities).num_entities(),
        ensures
            final(entities).wf(),
            old(entities).shared_borrow_post(*final(entities), type_id, self.id as int, r),
    {
        entities.borrow_component(type_id, self.id)
    }

    /// Take the exclusive borrow of this entity's component of the
    /// type named by `type_id`, returning a copy of its value. Release
    /// it with `release_component_mut`, handing back the possibly
    /// changed value.
    pub fn get_component_mut<C: Copy>(&self, entities: &mut Entities<C>, type_id: u64) -> (r:
        Result<C, EcsError>)
        requires
            old(entities).wf(),
            self.id < old(entities).num_entities(),
        ensures
            final(entities).wf(),
            old(entities).exclusive_borrow_post(*final(entities), type_id, self.id as int, r),
    {
        entities.borrow_component_mut(type_id, self.id)
    }

    /// Release one shared borrow taken with `get_component`.
    pub fn release_component<C: Copy>(&self, entities: &mut Entities<C>, type_id: u64) -> (r:
        Result<(), EcsError>)
        requires
            old(entities).wf(),
            self.id < old(entities).num_entities(),
        ensures
            final(entities).wf(),
            old(entities).shared_release_post(*final(entities), type_id, self.id as int, r),
    {
        entities.release_component(type_id, self.id)
    }

    /// Release the exclusive borrow taken with `get_component_mut`,
    /// writing `value` back.
    pub fn release_component_mut<C: Copy>(
        &self,
        entities: &mut Entities<C>,
        type_id: u64,
        value: C,
    ) -> (r: Result<(), EcsError>)
        requires
            old(entities).wf(),
            self.id < old(entities).num_entities(),
        ensures
            final(entities).wf(),
            old(entities).exclusive_release_post(
                *final(entities),
                type_id,
                self.id as int,
                value,
                r,
            ),
    {
        entities.release_component_mut(type_id, self.id, value)
    }
}

} // verus!
