//! The entity directory: per-type component stores, the type-to-bit
//! map, and the per-entity signature vector.
//!
//! A component type is named by a caller-chosen `u64` key; registration
//! order assigns each key its signature bit. Entities are indexes into
//! the stores, which all grow in lockstep: every store holds exactly one
//! optional slot per entity, and an entity's signature has bit `i` set
//! exactly when store `i` holds a live value for it.
//!
//! Each live slot carries an explicit runtime borrow state, so that
//! shared and exclusive access to the same component never coexist even
//! though the borrows are handed out dynamically.

use vstd::prelude::*;

use crate::error::EcsError;
use crate::signature::{
    bit_set, lemma_bit_clear, lemma_bit_or, lemma_bit_single, lemma_bit_zero,
    lemma_single_bit_test, signature_matches, SIGNATURE_BITS,
};

verus! {

/// The runtime borrow state of one stored component value.
#[derive(Clone, Copy, Debug, PartialEq, Eq, Structural)]
pub enum BorrowState {
    /// No borrow is outstanding.
    Free,
    /// `readers` shared borrows are outstanding; always at least one.
    SharedBorrow { readers: usize },
    /// One exclusive borrow is outstanding.
    ExclusiveBorrow,
}

/// One stored component value together with its borrow state.
pub struct ComponentCell<C> {
    pub value: C,
    pub borrow: BorrowState,
}

/// A stored slot is well formed when a shared borrow count never sits
/// at zero.
pub open spec fn slot_wf<C>(s: Option<ComponentCell<C>>) -> bool {
    match s {
        Some(cell) => match cell.borrow {
            BorrowState::SharedBorrow { readers } => readers >= 1,
            _ => true,
        },
        None => true,
    }
}

/// The entity directory.
pub struct Entities<C> {
    /// Component type keys in registration order; the position of a key
    /// is its signature bit.
    pub registered: Vec<u64>,
    /// One store per registered type, in registration order; each store
    /// holds one optional slot per entity.
    pub stores: Vec<Vec<Option<ComponentCell<C>>>>,
    /// One signature per entity.
    pub entity_bitmasks: Vec<u32>,
}

impl<C: Copy> Entities<C> {
    /// How many entities have been created.
    pub open spec fn num_entities(self) -> nat {
        self.entity_bitmasks@.len()
    }

    /// How many component types have been registered.
    pub open spec fn num_registered(self) -> nat {
        self.registered@.len()
    }

    /// Whether `type_id` has been registered.
    pub open spec fn is_registered(self, type_id: u64) -> bool {
        self.registered@.contains(type_id)
    }

    /// The signature bit position assigned to `type_id`.
    pub open spec fn position_of(self, type_id: u64) -> int {
        choose|i: int| 0 <= i < self.registered@.len() && self.registered@[i] == type_id
    }

    /// The one-bit mask assigned to `type_id`.
    pub open spec fn mask_of(self, type_id: u64) -> u32 {
        1u32 << (self.position_of(type_id) as u32)
    }

    /// The signature of entity `e`.
    pub open spec fn signature(self, e: int) -> u32 {
        self.entity_bitmasks@[e]
    }

    /// The slot of store `i` for entity `e`.
    pub open spec fn slot(self, i: int, e: int) -> Option<ComponentCell<C>> {
        self.stores@[i]@[e]
    }

    /// The stored value of store `i` for entity `e`, if the slot is live.
    pub open spec fn slot_value(self, i: int, e: int) -> Option<C> {
        match self.slot(i, e) {
            Some(cell) => Some(cell.value),
            None => None,
        }
    }

    /// The directory's invariant.
    ///
    /// Registered keys are distinct and at most one per signature bit;
    /// every store is as long as the entity list; a signature bit is set
    /// exactly when the matching slot is live; bits beyond the
    /// registered range are clear; borrow counts are positive.
    pub open spec fn wf(self) -> bool {
        &&& self.registered@.len() <= SIGNATURE_BITS
        &&& self.stores@.len() == self.registered@.len()
        &&& forall|i: int, j: int|
            0 <= i < self.registered@.len() && 0 <= j < self.registered@.len() && i != j
                ==> self.registered@[i] != self.registered@[j]
        &&& forall|i: int|
            0 <= i < self.stores@.len() ==> (#[trigger] self.stores@[i])@.len()
                == self.entity_bitmasks@.len()
        &&& forall|i: int, e: int|
            0 <= i < self.registered@.len() && 0 <= e < self.entity_bitmasks@.len()
                ==> (bit_set(self.entity_bitmasks@[e], i as u32) <==> (#[trigger] self.slot(
                i,
                e,
            )) is Some)
        &&& forall|i: int, e: int|
            0 <= i < self.registered@.len() && 0 <= e < self.entity_bitmasks@.len()
                ==> slot_wf(#[trigger] self.slot(i, e))
        &&& forall|e: int, i: u32|
            0 <= e < self.entity_bitmasks@.len() && self.registered@.len() <= i
                < SIGNATURE_BITS ==> !(#[trigger] bit_set(self.entity_bitmasks@[e], i))
    }

    /// The position assigned to a registered key is the index where the
    /// key stands in the registration list.
    pub proof fn lemma_position_of(self, i: int)
        requires
            self.wf(),
            0 <= i < self.registered@.len(),
        ensures
            self.position_of(self.registered@[i]) == i,
            self.is_registered(self.registered@[i]),
    {
        let t = self.registered@[i];
        assert(self.registered@[i] == t);
        let j = self.position_of(t);
        assert(0 <= j < self.registered@.len() && self.registered@[j] == t);
    }

    /// A fresh directory: nothing registered, no entities.
    pub fn new() -> (r: Entities<C>)
        ensures
            r.wf(),
            r.num_entities() == 0,
            r.num_registered() == 0,
    {
        Entities { registered: Vec::new(), stores: Vec::new(), entity_bitmasks: Vec::new() }
    }

    /// The index of `type_id` in the registration list, if any.
    fn find_position(&self, type_id: u64) -> (r: Option<usize>)
        ensures
            match r {
                Some(i) => 0 <= i < self.registered@.len() && self.registered@[i as int]
                    == type_id,
                None => !self.is_registered(type_id),
            },
    {
        let mut i: usize = 0;
        while i < self.registered.len()
            invariant
                i <= self.registered@.len(),
                forall|j: int| 0 <= j < i ==> self.registered@[j] != type_id,
            decreases self.registered@.len() - i,
        {
            if self.registered[i] == type_id {
                return Some(i);
            }
            i += 1;
        }
        None
    }

    /// What registering `type_id` does: on success the key gets the
    /// next free bit and an empty store of one `None` slot per
    /// existing entity; a duplicate key or exhausted signature is
    /// rejected without change.
    pub open spec fn register_post(
        self,
        post: Entities<C>,
        type_id: u64,
        r: Result<(), EcsError>,
    ) -> bool {
        match r {
            Ok(()) => {
                &&& !self.is_registered(type_id)
                &&& self.num_registered() < SIGNATURE_BITS
                &&& post.registered@ == self.registered@.push(type_id)
                &&& post.entity_bitmasks == self.entity_bitmasks
                &&& post.stores@.len() == self.stores@.len() + 1
                &&& forall|i: int|
                    0 <= i < self.stores@.len() ==> post.stores@[i] == self.stores@[i]
                &&& post.stores@[self.stores@.len() as int]@ =~= Seq::new(
                    self.num_entities(),
                    |e: int| None::<ComponentCell<C>>,
                )
                &&& post.is_registered(type_id)
                &&& post.position_of(type_id) == self.num_registered()
            },
            Err(EcsError::DuplicateRegistration) => self.is_registered(type_id) && post == self,
            Err(EcsError::CapacityExceeded) => !self.is_registered(type_id)
                && self.num_registered() >= SIGNATURE_BITS && post == self,
            Err(_) => false,
        }
    }

    /// What creating an entity does: one `None` slot appended to every
    /// store and one zero signature; `id` is the new entity's index.
    pub open spec fn create_post(self, post: Entities<C>, id: usize) -> bool {
        &&& id == self.num_entities()
        &&& post.num_entities() == self.num_entities() + 1
        &&& post.registered == self.registered
        &&& post.entity_bitmasks@ == self.entity_bitmasks@.push(0u32)
        &&& post.stores@.len() == self.stores@.len()
        &&& forall|i: int|
            0 <= i < self.stores@.len() ==> (#[trigger] post.stores@[i])@ == self.stores@[i]@.push(
                None::<ComponentCell<C>>,
            )
    }

    /// Assign the next free signature bit to `type_id` and create its
    /// empty store, one `None` slot per existing entity.
    ///
    /// Registering the same key twice, or registering more keys than
    /// the signature has bits, is rejected.
    pub fn register_component(&mut self, type_id: u64) -> (r: Result<(), EcsError>)
        requires
            old(self).wf(),
        ensures
            final(self).wf(),
            old(self).register_post(*final(self), type_id, r),
    {
        match self.find_position(type_id) {
            Some(_) => {
                return Err(EcsError::DuplicateRegistration);
            },
            None => {},
        }
        if self.registered.len() >= 32 {
            return Err(EcsError::CapacityExceeded);
        }
        let count: usize = self.entity_bitmasks.len();
        let mut store: Vec<Option<ComponentCell<C>>> = Vec::new();
        let mut e: usize = 0;
        while e < count
            invariant
                e <= count,
                store@.len() == e,
                forall|k: int| 0 <= k < e ==> store@[k] is None,
            decreases count - e,
        {
            store.push(None);
            e += 1;
        }
        let ghost pre = *self;
        self.registered.push(type_id);
        self.stores.push(store);
        proof {
            let post = *self;
            let n = pre.registered@.len() as int;
            assert(post.registered@ == pre.registered@.push(type_id));
            assert forall|i: int, j: int|
                0 <= i < post.registered@.len() && 0 <= j < post.registered@.len() && i
                    != j implies post.registered@[i] != post.registered@[j] by {
                if i == n && 0 <= j < n {
                    assert(pre.registered@[j] == post.registered@[j]);
                    assert(pre.registered@[j] != type_id) by {
                        if pre.registered@[j] == type_id {
                            assert(pre.registered@.contains(type_id));
                        }
                    }
                } else if j == n && 0 <= i < n {
                    assert(pre.registered@[i] == post.registered@[i]);
                    assert(pre.registered@[i] != type_id) by {
                        if pre.registered@[i] == type_id {
                            assert(pre.registered@.contains(type_id));
                        }
                    }
                }
            }
            assert forall|i: int|
                0 <= i < post.stores@.len() implies (#[trigger] post.stores@[i])@.len()
                == post.entity_bitmasks@.len() by {
                if i < n {
                    assert(post.stores@[i] == pre.stores@[i]);
                }
            }
            assert forall|i: int, e2: int|
                0 <= i < post.registered@.len() && 0 <= e2 < post.entity_bitmasks@.len() implies (
            bit_set(post.entity_bitmasks@[e2], i as u32) <==> (#[trigger] post.slot(i, e2))
                is Some) by {
                if i < n {
                    assert(post.stores@[i] == pre.stores@[i]);
                    assert(post.slot(i, e2) == pre.slot(i, e2));
                } else {
                    assert(post.slot(i, e2) is None);
                    assert(!bit_set(pre.entity_bitmasks@[e2], i as u32));
                }
            }
            assert forall|i: int, e2: int|
                0 <= i < post.registered@.len() && 0 <= e2
                    < post.entity_bitmasks@.len() implies slot_wf(#[trigger] post.slot(i, e2)) by {
                if i < n {
                    assert(post.stores@[i] == pre.stores@[i]);
                    assert(post.slot(i, e2) == pre.slot(i, e2));
                } else {
                    assert(post.slot(i, e2) is None);
                }
            }
            assert(post.wf());
            assert(post.registered@[n] == type_id);
            post.lemma_position_of(n);
            assert(post.stores@[n]@ =~= Seq::new(
                pre.num_entities(),
                |e: int| None::<ComponentCell<C>>,
            ));
        }
        Ok(())
    }

    /// Append one entity: a `None` slot in every store and a zero
    /// signature. Returns the new entity's index.
    pub fn create_entity(&mut self) -> (id: usize)
        requires
            old(self).wf(),
        ensures
            final(self).wf(),
            old(self).create_post(*final(self), id),
    {
        let id = self.entity_bitmasks.len();
        let mut i: usize = 0;
        while i < self.stores.len()
            invariant
                i <= self.stores@.len(),
                self.registered == old(self).registered,
                self.entity_bitmasks == old(self).entity_bitmasks,
                self.stores@.len() == old(self).stores@.len(),
                forall|j: int|
                    0 <= j < i ==> (#[trigger] self.stores@[j])@ == old(self).stores@[j]@.push(
                        None::<ComponentCell<C>>,
                    ),
                forall|j: int|
                    i <= j < self.stores@.len() ==> self.stores@[j] == old(self).stores@[j],
            decreases self.stores@.len() - i,
        {
            let store = &mut self.stores[i];
            store.push(None);
            i += 1;
        }
        self.entity_bitmasks.push(0);
        proof {
            let pre = *old(self);
            let post = *self;
            let n = pre.registered@.len() as int;
            let count = pre.entity_bitmasks@.len() as int;
            assert forall|i2: int|
                0 <= i2 < post.stores@.len() implies (#[trigger] post.stores@[i2])@.len()
                == post.entity_bitmasks@.len() by {
                assert(post.stores@[i2]@ == pre.stores@[i2]@.push(None::<ComponentCell<C>>));
            }
            assert forall|i2: int, e2: int|
                0 <= i2 < post.registered@.len() && 0 <= e2
                    < post.entity_bitmasks@.len() implies ((bit_set(
                post.entity_bitmasks@[e2],
                i2 as u32,
            ) <==> (#[trigger] post.slot(i2, e2)) is Some) && slot_wf(post.slot(i2, e2))) by {
                assert(post.stores@[i2]@ == pre.stores@[i2]@.push(None::<ComponentCell<C>>));
                if e2 < count {
                    assert(post.slot(i2, e2) == pre.slot(i2, e2));
                    assert(post.entity_bitmasks@[e2] == pre.entity_bitmasks@[e2]);
                } else {
                    assert(post.slot(i2, e2) is None);
                    assert(post.entity_bitmasks@[e2] == 0u32);
                    lemma_bit_zero(i2 as u32);
                }
            }
            assert forall|e2: int, i2: u32|
                0 <= e2 < post.entity_bitmasks@.len() && post.registered@.len() <= i2
                    < SIGNATURE_BITS implies !(#[trigger] bit_set(
                post.entity_bitmasks@[e2],
                i2,
            )) by {
                if e2 >= count {
                    assert(post.entity_bitmasks@[e2] == 0u32);
                    lemma_bit_zero(i2);
                }
            }
            assert(post.wf());
        }
        id
    }

    /// Write `value` into store `pos` for entity `index` and set bit
    /// `pos` in that entity's signature. The written slot starts free
    /// of borrows.
    fn set_component_at(&mut self, pos: usize, index: usize, value: C)
        requires
            old(self).wf(),
            pos < old(self).num_registered(),
            index < old(self).num_entities(),
        ensures
            final(self).wf(),
            final(self).registered == old(self).registered,
            final(self).stores@.len() == old(self).stores@.len(),
            final(self).entity_bitmasks@ == old(self).entity_bitmasks@.update(
                index as int,
                old(self).entity_bitmasks@[index as int] | (1u32 << (pos as u32)),
            ),
            forall|i: int|
                0 <= i < old(self).stores@.len() && i != pos ==> final(self).stores@[i] == old(
                    self,
                ).stores@[i],
            final(self).stores@[pos as int]@ == old(self).stores@[pos as int]@.update(
                index as int,
                Some((ComponentCell { value, borrow: BorrowState::Free })),
            ),
    {
        let mask: u32 = 1u32 << (pos as u32);
        let sig = self.entity_bitmasks[index];
        self.entity_bitmasks.set(index, sig | mask);
        let store = &mut self.stores[pos];
        store.set(index, Some(ComponentCell { value, borrow: BorrowState::Free }));
        proof {
            let pre = *old(self);
            let post = *self;
            let n = pre.registered@.len() as int;
            let count = pre.entity_bitmasks@.len() as int;
            assert forall|i2: int|
                0 <= i2 < post.stores@.len() implies (#[trigger] post.stores@[i2])@.len()
                == post.entity_bitmasks@.len() by {
                if i2 == pos {
                    assert(post.stores@[i2]@ == pre.stores@[i2]@.update(
                        index as int,
                        Some((ComponentCell { value, borrow: BorrowState::Free })),
                    ));
                }
            }
            assert forall|i2: int, e2: int|
                0 <= i2 < post.registered@.len() && 0 <= e2
                    < post.entity_bitmasks@.len() implies ((bit_set(
                post.entity_bitmasks@[e2],
                i2 as u32,
            ) <==> (#[trigger] post.slot(i2, e2)) is Some) && slot_wf(post.slot(i2, e2))) by {
                if e2 == index {
                    lemma_bit_or(sig, mask, i2 as u32);
                    lemma_bit_single(pos as u32, i2 as u32);
                    if i2 == pos {
                        assert(post.slot(i2, e2) == Some(
                            (ComponentCell { value, borrow: BorrowState::Free }),
                        ));
                        assert(bit_set(post.entity_bitmasks@[e2], i2 as u32));
                    } else {
                        assert(post.slot(i2, e2) == pre.slot(i2, e2));
                        assert(bit_set(post.entity_bitmasks@[e2], i2 as u32) == bit_set(
                            pre.entity_bitmasks@[e2],
                            i2 as u32,
                        ));
                    }
                } else {
                    assert(post.entity_bitmasks@[e2] == pre.entity_bitmasks@[e2]);
                    if i2 == pos {
                        assert(post.slot(i2, e2) == pre.slot(i2, e2));
                    } else {
                        assert(post.slot(i2, e2) == pre.slot(i2, e2));
                    }
                }
            }
            assert forall|e2: int, i2: u32|
                0 <= e2 < post.entity_bitmasks@.len() && post.registered@.len() <= i2
                    < SIGNATURE_BITS implies !(#[trigger] bit_set(
                post.entity_bitmasks@[e2],
                i2,
            )) by {
                if e2 == index {
                    lemma_bit_or(sig, mask, i2);
                    lemma_bit_single(pos as u32, i2);
                }
            }
            assert(post.wf());
        }
    }

    /// Attach `value`, of the type named by `type_id`, to the most
    /// recently created entity: write its slot and set its signature
    /// bit. A key that was never registered is silently ignored.
    pub fn with_component(&mut self, type_id: u64, value: C)
        requires
            old(self).wf(),
            old(self).num_entities() > 0,
        ensures
            final(self).wf(),
            !old(self).is_registered(type_id) ==> *final(self) == *old(self),
            old(self).is_registered(type_id) ==> {
                let pos = old(self).position_of(type_id);
                let last = old(self).num_entities() - 1;
                &&& final(self).registered == old(self).registered
                &&& final(self).entity_bitmasks@ == old(self).entity_bitmasks@.update(
                    last as int,
                    old(self).entity_bitmasks@[last as int] | old(self).mask_of(type_id),
                )
                &&& final(self).stores@.len() == old(self).stores@.len()
                &&& forall|i: int|
                    0 <= i < old(self).stores@.len() && i != pos ==> final(self).stores@[i] == old(
                        self,
                    ).stores@[i]
                &&& final(self).stores@[pos]@ == old(self).stores@[pos]@.update(
                    last as int,
                    Some((ComponentCell { value, borrow: BorrowState::Free })),
                )
            },
    {
        match self.find_position(type_id) {
            None => {},
            Some(pos) => {
                proof {
                    self.lemma_position_of(pos as int);
                }
                let index = self.entity_bitmasks.len() - 1;
                self.set_component_at(pos, index, value);
            },
        }
    }

    /// Attach or overwrite the component of type `type_id` for the
    /// entity at `index`, setting its signature bit unconditionally.
    /// The written slot starts free of borrows, detaching any borrow
    /// that was outstanding on the value it replaces.
    pub fn add_component_by_entity_id(&mut self, type_id: u64, index: usize, value: C) -> (r:
        Result<(), EcsError>)
        requires
            old(self).wf(),
            index < old(self).num_entities(),
        ensures
            final(self).wf(),
            match r {
                Ok(()) => {
                    let pos = old(self).position_of(type_id);
                    &&& old(self).is_registered(type_id)
                    &&& final(self).registered == old(self).registered
                    &&& final(self).entity_bitmasks@ == old(self).entity_bitmasks@.update(
                        index as int,
                        old(self).entity_bitmasks@[index as int] | old(self).mask_of(type_id),
                    )
                    &&& final(self).stores@.len() == old(self).stores@.len()
                    &&& forall|i: int|
                        0 <= i < old(self).stores@.len() && i != pos ==> final(self).stores@[i]
                            == old(self).stores@[i]
                    &&& final(self).stores@[pos]@ == old(self).stores@[pos]@.update(
                        index as int,
                        Some((ComponentCell { value, borrow: BorrowState::Free })),
                    )
                },
                Err(e) => e == EcsError::UnregisteredComponent && !old(self).is_registered(type_id)
                    && *final(self) == *old(self),
            },
    {
        match self.find_position(type_id) {
            None => Err(EcsError::UnregisteredComponent),
            Some(pos) => {
                proof {
                    self.lemma_position_of(pos as int);
                }
                self.set_component_at(pos, index, value);
                Ok(())
            },
        }
    }

    /// The one-bit mask assigned to `type_id`, or an error if the key
    /// was never registered.
    pub fn get_component_bitmask(&self, type_id: u64) -> (r: Result<u32, EcsError>)
        requires
            self.wf(),
        ensures
            match r {
                Ok(m) => self.is_registered(type_id) && m == self.mask_of(type_id),
                Err(e) => e == EcsError::UnregisteredComponent && !self.is_registered(type_id),
            },
    {
        match self.find_position(type_id) {
            None => Err(EcsError::UnregisteredComponent),
            Some(pos) => {
                proof {
                    self.lemma_position_of(pos as int);
                }
                Ok(1u32 << (pos as u32))
            },
        }
    }

    /// The borrow state of store `i`'s slot for entity `e`, if live.
    pub open spec fn slot_borrow(self, i: int, e: int) -> Option<BorrowState> {
        match self.slot(i, e) {
            Some(cell) => Some(cell.borrow),
            None => None,
        }
    }

    /// Whether no live slot of entity `e` has an outstanding borrow.
    pub open spec fn entity_borrow_free(self, e: int) -> bool {
        forall|i: int|
            0 <= i < self.registered@.len() ==> ((#[trigger] self.slot_borrow(i, e)) matches Some(
                b,
            ) ==> b == BorrowState::Free)
    }

    /// A copy of the store for `type_id`: one optional value per
    /// entity, live exactly where the entity holds the component.
    pub fn get_components(&self, type_id: u64) -> (r: Result<Vec<Option<C>>, EcsError>)
        requires
            self.wf(),
        ensures
            match r {
                Ok(v) => {
                    &&& self.is_registered(type_id)
                    &&& v@.len() == self.num_entities()
                    &&& forall|e: int|
                        0 <= e < v@.len() ==> v@[e] == self.slot_value(
                            self.position_of(type_id),
                            e,
                        )
                },
                Err(e) => e == EcsError::UnregisteredComponent && !self.is_registered(type_id),
            },
    {
        match self.find_position(type_id) {
            None => Err(EcsError::UnregisteredComponent),
            Some(pos) => {
                proof {
                    self.lemma_position_of(pos as int);
                }
                let store = &self.stores[pos];
                let mut out: Vec<Option<C>> = Vec::new();
                let mut e: usize = 0;
                while e < store.len()
                    invariant
                        pos < self.stores@.len(),
                        store == self.stores@[pos as int],
                        e <= store@.len(),
                        out@.len() == e,
                        forall|k: int| 0 <= k < e ==> out@[k] == self.slot_value(pos as int, k),
                    decreases store@.len() - e,
                {
                    match &store[e] {
                        Some(cell) => out.push(Some(cell.value)),
                        None => out.push(None),
                    }
                    e += 1;
                }
                Ok(out)
            },
        }
    }

    /// Overwrite a live slot in place, leaving the signature alone.
    fn update_slot(&mut self, pos: usize, index: usize, cell: ComponentCell<C>)
        requires
            old(self).wf(),
            pos < old(self).num_registered(),
            index < old(self).num_entities(),
            old(self).slot(pos as int, index as int) is Some,
            slot_wf(Some(cell)),
        ensures
            final(self).wf(),
            final(self).registered == old(self).registered,
            final(self).entity_bitmasks == old(self).entity_bitmasks,
            final(self).stores@.len() == old(self).stores@.len(),
            forall|i: int|
                0 <= i < old(self).stores@.len() && i != pos ==> final(self).stores@[i] == old(
                    self,
                ).stores@[i],
            final(self).stores@[pos as int]@ == old(self).stores@[pos as int]@.update(
                index as int,
                Some(cell),
            ),
    {
        let store = &mut self.stores[pos];
        store.set(index, Some(cell));
        proof {
            let pre = *old(self);
            let post = *self;
            assert forall|i2: int|
                0 <= i2 < post.stores@.len() implies (#[trigger] post.stores@[i2])@.len()
                == post.entity_bitmasks@.len() by {
                if i2 == pos {
                    assert(post.stores@[i2]@ == pre.stores@[i2]@.update(index as int, Some(cell)));
                }
            }
            assert forall|i2: int, e2: int|
                0 <= i2 < post.registered@.len() && 0 <= e2
                    < post.entity_bitmasks@.len() implies ((bit_set(
                post.entity_bitmasks@[e2],
                i2 as u32,
            ) <==> (#[trigger] post.slot(i2, e2)) is Some) && slot_wf(post.slot(i2, e2))) by {
                if i2 == pos && e2 == index {
                    assert(post.slot(i2, e2) == Some(cell));
                    assert(pre.slot(i2, e2) is Some);
                } else {
                    assert(post.slot(i2, e2) == pre.slot(i2, e2));
                }
            }
            assert(post.wf());
        }
    }

    /// Logically delete the entity at `index`: zero its signature and
    /// clear every one of its slots. Deleting an already-deleted
    /// entity changes nothing; no storage is reclaimed.
    ///
    /// Rejected while any of the entity's components is borrowed.
    /// What logically deleting the entity at `index` does: on success
    /// its signature is zeroed and all its slots cleared, every other
    /// entity untouched; an outstanding borrow on any of its
    /// components is rejected without change.
    pub open spec fn remove_entity_post(
        self,
        post: Entities<C>,
        index: int,
        r: Result<(), EcsError>,
    ) -> bool {
        match r {
            Ok(()) => {
                &&& self.entity_borrow_free(index)
                &&& post.registered == self.registered
                &&& post.entity_bitmasks@ == self.entity_bitmasks@.update(index, 0u32)
                &&& post.stores@.len() == self.stores@.len()
                &&& forall|i: int|
                    0 <= i < self.stores@.len() ==> (#[trigger] post.stores@[i])@
                        == self.stores@[i]@.update(index, None::<ComponentCell<C>>)
            },
            Err(e) => e == EcsError::BorrowConflict && !self.entity_borrow_free(index) && post
                == self,
        }
    }

    pub fn remove_entity_by_id(&mut self, index: usize) -> (r: Result<(), EcsError>)
        requires
            old(self).wf(),
            index < old(self).num_entities(),
        ensures
            final(self).wf(),
            old(self).remove_entity_post(*final(self), index as int, r),
    {
        let mut i: usize = 0;
        while i < self.stores.len()
            invariant
                self == old(self),
                self.wf(),
                index < self.num_entities(),
                i <= self.stores@.len(),
                forall|j: int|
                    0 <= j < i ==> ((#[trigger] self.slot_borrow(j, index as int)) matches Some(
                        b,
                    ) ==> b == BorrowState::Free),
            decreases self.stores@.len() - i,
        {
            let store = &self.stores[i];
            match &store[index] {
                Some(cell) => match cell.borrow {
                    BorrowState::Free => {},
                    _ => {
                        proof {
                            assert(self.slot_borrow(i as int, index as int) == Some(cell.borrow));
                        }
                        return Err(EcsError::BorrowConflict);
                    },
                },
                None => {},
            }
            i += 1;
        }
        let mut j: usize = 0;
        while j < self.stores.len()
            invariant
                self.registered == old(self).registered,
                self.entity_bitmasks == old(self).entity_bitmasks,
                index < self.entity_bitmasks@.len(),
                self.stores@.len() == old(self).stores@.len(),
                j <= self.stores@.len(),
                forall|k: int|
                    0 <= k < j ==> (#[trigger] self.stores@[k])@ == old(self).stores@[k]@.update(
                        index as int,
                        None::<ComponentCell<C>>,
                    ),
                forall|k: int|
                    j <= k < self.stores@.len() ==> self.stores@[k] == old(self).stores@[k],
                forall|k: int|
                    0 <= k < self.stores@.len() ==> (#[trigger] self.stores@[k])@.len() == old(
                        self,
                    ).entity_bitmasks@.len(),
            decreases self.stores@.len() - j,
        {
            let store = &mut self.stores[j];
            store.set(index, None);
            j += 1;
        }
        self.entity_bitmasks.set(index, 0);
        proof {
            let pre = *old(self);
            let post = *self;
            assert forall|i2: int, e2: int|
                0 <= i2 < post.registered@.len() && 0 <= e2
                    < post.entity_bitmasks@.len() implies ((bit_set(
                post.entity_bitmasks@[e2],
                i2 as u32,
            ) <==> (#[trigger] post.slot(i2, e2)) is Some) && slot_wf(post.slot(i2, e2))) by {
                assert(post.stores@[i2]@ == pre.stores@[i2]@.update(
                    index as int,
                    None::<ComponentCell<C>>,
                ));
                if e2 == index {
                    assert(post.slot(i2, e2) is None);
                    assert(post.entity_bitmasks@[e2] == 0u32);
                    lemma_bit_zero(i2 as u32);
                } else {
                    assert(post.slot(i2, e2) == pre.slot(i2, e2));
                    assert(post.entity_bitmasks@[e2] == pre.entity_bitmasks@[e2]);
                }
            }
            assert forall|e2: int, i2: u32|
                0 <= e2 < post.entity_bitmasks@.len() && post.registered@.len() <= i2
                    < SIGNATURE_BITS implies !(#[trigger] bit_set(
                post.entity_bitmasks@[e2],
                i2,
            )) by {
                if e2 == index {
                    lemma_bit_zero(i2);
                }
            }
            assert forall|i2: int|
                0 <= i2 < post.stores@.len() implies (#[trigger] post.stores@[i2])@.len()
                == post.entity_bitmasks@.len() by {}
            assert(post.wf());
        }
        Ok(())
    }

    /// Detach the component of type `type_id` from the entity at
    /// `index`: clear its signature bit and its slot. Detaching a
    /// component the entity does not hold changes nothing.
    ///
    /// Rejected while that component is borrowed.
    /// What detaching `type_id` from the entity at `index` does: when
    /// the entity holds the component and it is unborrowed, its bit
    /// and slot are cleared and nothing else moves; when the entity
    /// never held it, nothing at all changes; an unregistered key or
    /// an outstanding borrow is rejected without change.
    pub open spec fn remove_component_post(
        self,
        post: Entities<C>,
        type_id: u64,
        index: int,
        r: Result<(), EcsError>,
    ) -> bool {
        match r {
            Ok(()) => {
                let pos = self.position_of(type_id);
                &&& self.is_registered(type_id)
                &&& post.registered == self.registered
                &&& if bit_set(self.signature(index), pos as u32) {
                    &&& self.slot_borrow(pos, index) == Some(BorrowState::Free)
                    &&& post.entity_bitmasks@ == self.entity_bitmasks@.update(
                        index,
                        self.entity_bitmasks@[index] & !self.mask_of(type_id),
                    )
                    &&& post.stores@.len() == self.stores@.len()
                    &&& forall|i: int|
                        0 <= i < self.stores@.len() && i != pos ==> post.stores@[i]
                            == self.stores@[i]
                    &&& post.stores@[pos]@ == self.stores@[pos]@.update(
                        index,
                        None::<ComponentCell<C>>,
                    )
                } else {
                    post == self
                }
            },
            Err(EcsError::UnregisteredComponent) => !self.is_registered(type_id) && post == self,
            Err(EcsError::BorrowConflict) => {
                let pos = self.position_of(type_id);
                &&& self.is_registered(type_id)
                &&& bit_set(self.signature(index), pos as u32)
                &&& self.slot_borrow(pos, index) != Some(BorrowState::Free)
                &&& post == self
            },
            Err(_) => false,
        }
    }

    pub fn remove_component_by_entity_id(&mut self, type_id: u64, index: usize) -> (r: Result<
        (),
        EcsError,
    >)
        requires
            old(self).wf(),
            index < old(self).num_entities(),
        ensures
            final(self).wf(),
            old(self).remove_component_post(*final(self), type_id, index as int, r),
    {
        match self.find_position(type_id) {
            None => Err(EcsError::UnregisteredComponent),
            Some(pos) => {
                proof {
                    self.lemma_position_of(pos as int);
                }
                let mask: u32 = 1u32 << (pos as u32);
                let sig = self.entity_bitmasks[index];
                proof {
                    lemma_single_bit_test(sig, pos as u32);
                }
                if sig & mask == mask {
                    let free = {
                        let store = &self.stores[pos];
                        match &store[index] {
                            Some(cell) => match cell.borrow {
                                BorrowState::Free => true,
                                _ => false,
                            },
                            None => false,
                        }
                    };
                    if !free {
                        return Err(EcsError::BorrowConflict);
                    }
                    self.entity_bitmasks.set(index, sig & !mask);
                    let store = &mut self.stores[pos];
                    store.set(index, None);
                    proof {
                        let pre = *old(self);
                        let post = *self;
                        assert forall|i2: int|
                            0 <= i2 < post.stores@.len() implies (#[trigger] post.stores@[i2])@.len()
                            == post.entity_bitmasks@.len() by {
                            if i2 == pos {
                                assert(post.stores@[i2]@ == pre.stores@[i2]@.update(
                                    index as int,
                                    None::<ComponentCell<C>>,
                                ));
                            }
                        }
                        assert forall|i2: int, e2: int|
                            0 <= i2 < post.registered@.len() && 0 <= e2
                                < post.entity_bitmasks@.len() implies ((bit_set(
                            post.entity_bitmasks@[e2],
                            i2 as u32,
                        ) <==> (#[trigger] post.slot(i2, e2)) is Some) && slot_wf(
                            post.slot(i2, e2),
                        )) by {
                            if e2 == index {
                                lemma_bit_clear(sig, pos as u32, i2 as u32);
                                if i2 == pos {
                                    assert(post.slot(i2, e2) is None);
                                } else {
                                    assert(post.slot(i2, e2) == pre.slot(i2, e2));
                                }
                            } else {
                                assert(post.entity_bitmasks@[e2] == pre.entity_bitmasks@[e2]);
                                assert(post.slot(i2, e2) == pre.slot(i2, e2));
                            }
                        }
                        assert forall|e2: int, i2: u32|
                            0 <= e2 < post.entity_bitmasks@.len() && post.registered@.len() <= i2
                                < SIGNATURE_BITS implies !(#[trigger] bit_set(
                            post.entity_bitmasks@[e2],
                            i2,
                        )) by {
                            if e2 == index {
                                lemma_bit_clear(sig, pos as u32, i2);
                            }
                        }
                        assert(post.wf());
                    }
                    Ok(())
                } else {
                    Ok(())
                }
            },
        }
    }

    /// Everything but the one slot `(pos, index)` is as it was.
    pub open spec fn unchanged_except_slot(self, post: Entities<C>, pos: int, index: int) -> bool {
        &&& post.registered == self.registered
        &&& post.entity_bitmasks == self.entity_bitmasks
        &&& post.stores@.len() == self.stores@.len()
        &&& forall|i: int|
            0 <= i < self.stores@.len() && i != pos ==> post.stores@[i] == self.stores@[i]
        &&& forall|e: int|
            0 <= e < self.num_entities() && e != index ==> post.stores@[pos]@[e]
                == self.stores@[pos]@[e]
    }

    /// What taking a shared borrow of `(type_id, index)` does: on
    /// success the stored value is returned and its reader count goes
    /// up by one; every failure leaves the directory untouched and
    /// names its reason exactly.
    pub open spec fn shared_borrow_post(
        self,
        post: Entities<C>,
        type_id: u64,
        index: int,
        r: Result<C, EcsError>,
    ) -> bool {
        match r {
            Ok(v) => {
                let pos = self.position_of(type_id);
                &&& self.is_registered(type_id)
                &&& Some(v) == self.slot_value(pos, index)
                &&& post.slot_value(pos, index) == self.slot_value(pos, index)
                &&& match self.slot_borrow(pos, index) {
                    Some(BorrowState::Free) => post.slot_borrow(pos, index) == Some(
                        (BorrowState::SharedBorrow { readers: 1 }),
                    ),
                    Some(BorrowState::SharedBorrow { readers }) => readers < usize::MAX
                        && post.slot_borrow(pos, index) == Some(
                        (BorrowState::SharedBorrow { readers: (readers + 1) as usize }),
                    ),
                    _ => false,
                }
                &&& self.unchanged_except_slot(post, pos, index)
            },
            Err(EcsError::UnregisteredComponent) => !self.is_registered(type_id) && post == self,
            Err(EcsError::MissingComponent) => self.is_registered(type_id) && self.slot(
                self.position_of(type_id),
                index,
            ) is None && post == self,
            Err(EcsError::BorrowConflict) => {
                let pos = self.position_of(type_id);
                &&& self.is_registered(type_id)
                &&& match self.slot_borrow(pos, index) {
                    Some(BorrowState::ExclusiveBorrow) => true,
                    Some(BorrowState::SharedBorrow { readers }) => readers == usize::MAX,
                    _ => false,
                }
                &&& post == self
            },
            Err(_) => false,
        }
    }

    /// What taking the exclusive borrow of `(type_id, index)` does: on
    /// success the stored value is returned and the slot is marked
    /// exclusively borrowed; every failure leaves the directory
    /// untouched and names its reason exactly.
    pub open spec fn exclusive_borrow_post(
        self,
        post: Entities<C>,
        type_id: u64,
        index: int,
        r: Result<C, EcsError>,
    ) -> bool {
        match r {
            Ok(v) => {
                let pos = self.position_of(type_id);
                &&& self.is_registered(type_id)
                &&& Some(v) == self.slot_value(pos, index)
                &&& self.slot_borrow(pos, index) == Some(BorrowState::Free)
                &&& post.stores@[pos]@ == self.stores@[pos]@.update(
                    index,
                    Some((ComponentCell { value: v, borrow: BorrowState::ExclusiveBorrow })),
                )
                &&& self.unchanged_except_slot(post, pos, index)
            },
            Err(EcsError::UnregisteredComponent) => !self.is_registered(type_id) && post == self,
            Err(EcsError::MissingComponent) => self.is_registered(type_id) && self.slot(
                self.position_of(type_id),
                index,
            ) is None && post == self,
            Err(EcsError::BorrowConflict) => {
                let pos = self.position_of(type_id);
                &&& self.is_registered(type_id)
                &&& self.slot(pos, index) is Some
                &&& self.slot_borrow(pos, index) != Some(BorrowState::Free)
                &&& post == self
            },
            Err(_) => false,
        }
    }

    /// What releasing one shared borrow of `(type_id, index)` does: on
    /// success the reader count goes down by one and the value stays;
    /// every failure leaves the directory untouched and names its
    /// reason exactly.
    pub open spec fn shared_release_post(
        self,
        post: Entities<C>,
        type_id: u64,
        index: int,
        r: Result<(), EcsError>,
    ) -> bool {
        match r {
            Ok(()) => {
                let pos = self.position_of(type_id);
                &&& self.is_registered(type_id)
                &&& post.slot_value(pos, index) == self.slot_value(pos, index)
                &&& match self.slot_borrow(pos, index) {
                    Some(BorrowState::SharedBorrow { readers }) => post.slot_borrow(pos, index)
                        == if readers == 1 {
                        Some(BorrowState::Free)
                    } else {
                        Some((BorrowState::SharedBorrow { readers: (readers - 1) as usize }))
                    },
                    _ => false,
                }
                &&& self.unchanged_except_slot(post, pos, index)
            },
            Err(EcsError::UnregisteredComponent) => !self.is_registered(type_id) && post == self,
            Err(EcsError::MissingComponent) => self.is_registered(type_id) && self.slot(
                self.position_of(type_id),
                index,
            ) is None && post == self,
            Err(EcsError::BorrowConflict) => {
                let pos = self.position_of(type_id);
                &&& self.is_registered(type_id)
                &&& self.slot(pos, index) is Some
                &&& !(self.slot_borrow(pos, index) matches Some(BorrowState::SharedBorrow { .. }))
                &&& post == self
            },
            Err(_) => false,
        }
    }

    /// What releasing the exclusive borrow of `(type_id, index)` and
    /// writing `value` back does: on success the slot holds `value`
    /// free of borrows; every failure leaves the directory untouched
    /// and names its reason exactly.
    pub open spec fn exclusive_release_post(
        self,
        post: Entities<C>,
        type_id: u64,
        index: int,
        value: C,
        r: Result<(), EcsError>,
    ) -> bool {
        match r {
            Ok(()) => {
                let pos = self.position_of(type_id);
                &&& self.is_registered(type_id)
                &&& self.slot_borrow(pos, index) == Some(BorrowState::ExclusiveBorrow)
                &&& post.stores@[pos]@ == self.stores@[pos]@.update(
                    index,
                    Some((ComponentCell { value, borrow: BorrowState::Free })),
                )
                &&& self.unchanged_except_slot(post, pos, index)
            },
            Err(EcsError::UnregisteredComponent) => !self.is_registered(type_id) && post == self,
            Err(EcsError::MissingComponent) => self.is_registered(type_id) && self.slot(
                self.position_of(type_id),
                index,
            ) is None && post == self,
            Err(EcsError::BorrowConflict) => {
                let pos = self.position_of(type_id);
                &&& self.is_registered(type_id)
                &&& self.slot(pos, index) is Some
                &&& self.slot_borrow(pos, index) != Some(BorrowState::ExclusiveBorrow)
                &&& post == self
            },
            Err(_) => false,
        }
    }

    /// Take a shared borrow of the component of type `type_id` held by
    /// the entity at `index`, returning a copy of its value. Any
    /// number of shared borrows may be outstanding at once, but none
    /// while an exclusive borrow is.
    pub fn borrow_component(&mut self, type_id: u64, index: usize) -> (r: Result<C, EcsError>)
        requires
            old(self).wf(),
            index < old(self).num_entities(),
        ensures
            final(self).wf(),
            old(self).shared_borrow_post(*final(self), type_id, index as int, r),
    {
        match self.find_position(type_id) {
            None => Err(EcsError::UnregisteredComponent),
            Some(pos) => {
                proof {
                    self.lemma_position_of(pos as int);
                }
                let decision: Result<(C, BorrowState), EcsError> = {
                    let store = &self.stores[pos];
                    match &store[index] {
                        None => Err(EcsError::MissingComponent),
                        Some(cell) => match cell.borrow {
                            BorrowState::Free => Ok(
                                (cell.value, BorrowState::SharedBorrow { readers: 1 }),
                            ),
                            BorrowState::SharedBorrow { readers } => {
                                if readers == usize::MAX {
                                    Err(EcsError::BorrowConflict)
                                } else {
                                    Ok(
                                        (
                                            cell.value,
                                            BorrowState::SharedBorrow { readers: readers + 1 },
                                        ),
                                    )
                                }
                            },
                            BorrowState::ExclusiveBorrow => Err(EcsError::BorrowConflict),
                        },
                    }
                };
                match decision {
                    Err(e) => Err(e),
                    Ok((v, b)) => {
                        self.update_slot(pos, index, ComponentCell { value: v, borrow: b });
                        Ok(v)
                    },
                }
            },
        }
    }

    /// Take the exclusive borrow of the component of type `type_id`
    /// held by the entity at `index`, returning a copy of its value.
    /// Fails while any other borrow of that component is outstanding;
    /// release it with `release_component_mut`, handing back the
    /// possibly changed value.
    pub fn borrow_component_mut(&mut self, type_id: u64, index: usize) -> (r: Result<C, EcsError>)
        requires
            old(self).wf(),
            index < old(self).num_entities(),
        ensures
            final(self).wf(),
            old(self).exclusive_borrow_post(*final(self), type_id, index as int, r),
    {
        match self.find_position(type_id) {
            None => Err(EcsError::UnregisteredComponent),
            Some(pos) => {
                proof {
                    self.lemma_position_of(pos as int);
                }
                let decision: Result<C, EcsError> = {
                    let store = &self.stores[pos];
                    match &store[index] {
                        None => Err(EcsError::MissingComponent),
                        Some(cell) => match cell.borrow {
                            BorrowState::Free => Ok(cell.value),
                            _ => Err(EcsError::BorrowConflict),
                        },
                    }
                };
                match decision {
                    Err(e) => Err(e),
                    Ok(v) => {
                        self.update_slot(
                            pos,
                            index,
                            ComponentCell { value: v, borrow: BorrowState::ExclusiveBorrow },
                        );
                        Ok(v)
                    },
                }
            },
        }
    }

    /// Release one shared borrow taken with `borrow_component`.
    /// Fails when no shared borrow is outstanding on that component.
    pub fn release_component(&mut self, type_id: u64, index: usize) -> (r: Result<(), EcsError>)
        requires
            old(self).wf(),
            index < old(self).num_entities(),
        ensures
            final(self).wf(),
            old(self).shared_release_post(*final(self), type_id, index as int, r),
    {
        match self.find_position(type_id) {
            None => Err(EcsError::UnregisteredComponent),
            Some(pos) => {
                proof {
                    self.lemma_position_of(pos as int);
                    assert(slot_wf(self.slot(pos as int, index as int)));
                }
                let decision: Result<(C, BorrowState), EcsError> = {
                    let store = &self.stores[pos];
                    match &store[index] {
                        None => Err(EcsError::MissingComponent),
                        Some(cell) => match cell.borrow {
                            BorrowState::SharedBorrow { readers } => {
                                if readers == 1 {
                                    Ok((cell.value, BorrowState::Free))
                                } else {
                                    Ok(
                                        (
                                            cell.value,
                                            BorrowState::SharedBorrow { readers: readers - 1 },
                                        ),
                                    )
                                }
                            },
                            _ => Err(EcsError::BorrowConflict),
                        },
                    }
                };
                match decision {
                    Err(e) => Err(e),
                    Ok((v, b)) => {
                        self.update_slot(pos, index, ComponentCell { value: v, borrow: b });
                        Ok(())
                    },
                }
            },
        }
    }

    /// Release the exclusive borrow taken with `borrow_component_mut`,
    /// writing `value` back into the slot. Fails when no exclusive
    /// borrow is outstanding on that component.
    pub fn release_component_mut(&mut self, type_id: u64, index: usize, value: C) -> (r: Result<
        (),
        EcsError,
    >)
        requires
            old(self).wf(),
            index < old(self).num_entities(),
        ensures
            final(self).wf(),
            old(self).exclusive_release_post(*final(self), type_id, index as int, value, r),
    {
        match self.find_position(type_id) {
            None => Err(EcsError::UnregisteredComponent),
            Some(pos) => {
                proof {
                    self.lemma_position_of(pos as int);
                }
                let decision: Result<(), EcsError> = {
                    let store = &self.stores[pos];
                    match &store[index] {
                        None => Err(EcsError::MissingComponent),
                        Some(cell) => match cell.borrow {
                            BorrowState::ExclusiveBorrow => Ok(()),
                            _ => Err(EcsError::BorrowConflict),
                        },
                    }
                };
                match decision {
                    Err(e) => Err(e),
                    Ok(()) => {
                        self.update_slot(
                            pos,
                            index,
                            ComponentCell { value, borrow: BorrowState::Free },
                        );
                        Ok(())
                    },
                }
            },
        }
    }

    /// Whether the signature of the entity at `index` is a superset of
    /// `mask`.
    pub fn has_component(&self, index: usize, mask: u32) -> (r: bool)
        requires
            index < self.num_entities(),
        ensures
            r == signature_matches(self.signature(index as int), mask),
    {
        self.entity_bitmasks[index] & mask == mask
    }
}

/// Signature consistency: for every entity and registered component
/// type, the entity's signature has the type's bit set exactly when
/// the type's store holds a live value for that entity. Every
/// operation of the directory keeps this, since each one that takes a
/// well-formed directory leaves a well-formed one.
pub proof fn lemma_signature_consistency<C: Copy>(entities: Entities<C>, type_id: u64, e: int)
    requires
        entities.wf(),
        entities.is_registered(type_id),
        0 <= e < entities.num_entities(),
    ensures
        bit_set(entities.signature(e), entities.position_of(type_id) as u32) <==> entities.slot(
            entities.position_of(type_id),
            e,
        ) is Some,
{
    let pos = entities.position_of(type_id);
    assert(0 <= pos < entities.registered@.len());
}

/// Deletion idempotence, entity half: deleting an entity whose
/// signature is already zero leaves every signature and every stored
/// slot of the whole directory exactly as it was.
pub proof fn lemma_remove_entity_idempotent<C: Copy>(
    pre: Entities<C>,
    post: Entities<C>,
    index: int,
)
    requires
        pre.wf(),
        0 <= index < pre.num_entities(),
        pre.signature(index) == 0u32,
        pre.remove_entity_post(post, index, Ok(())),
    ensures
        post.entity_bitmasks@ == pre.entity_bitmasks@,
        post.stores@.len() == pre.stores@.len(),
        forall|i: int|
            0 <= i < pre.stores@.len() ==> (#[trigger] post.stores@[i])@ == pre.stores@[i]@,
{
    assert(post.entity_bitmasks@ =~= pre.entity_bitmasks@);
    assert forall|i: int|
        0 <= i < pre.stores@.len() implies (#[trigger] post.stores@[i])@ == pre.stores@[i]@ by {
        lemma_bit_zero(i as u32);
        assert(pre.slot(i, index) is None);
        assert(post.stores@[i]@ =~= pre.stores@[i]@);
    }
}

/// Deletion idempotence, component half: detaching a component from
/// an entity that does not hold it changes nothing at all.
pub proof fn lemma_remove_component_idempotent<C: Copy>(
    pre: Entities<C>,
    post: Entities<C>,
    type_id: u64,
    index: int,
)
    requires
        pre.wf(),
        0 <= index < pre.num_entities(),
        !bit_set(pre.signature(index), pre.position_of(type_id) as u32),
        pre.remove_component_post(post, type_id, index, Ok(())),
    ensures
        post == pre,
{
}

/// Deleting an entity touches no other entity: every other signature
/// and every other entity's slots are untouched.
pub proof fn lemma_remove_entity_preserves_others<C: Copy>(
    pre: Entities<C>,
    post: Entities<C>,
    index: int,
    e: int,
)
    requires
        pre.wf(),
        0 <= index < pre.num_entities(),
        pre.remove_entity_post(post, index, Ok(())),
        0 <= e < pre.num_entities(),
        e != index,
    ensures
        post.signature(e) == pre.signature(e),
        forall|i: int| 0 <= i < pre.stores@.len() ==> #[trigger] post.slot(i, e) == pre.slot(i, e),
{
    assert forall|i: int|
        0 <= i < pre.stores@.len() implies #[trigger] post.slot(i, e) == pre.slot(i, e) by {
        assert(post.stores@[i]@ == pre.stores@[i]@.update(index, None::<ComponentCell<C>>));
    }
}

/// Detaching a component touches no other entity: every other
/// signature and every other entity's slots are untouched.
pub proof fn lemma_remove_component_preserves_others<C: Copy>(
    pre: Entities<C>,
    post: Entities<C>,
    type_id: u64,
    index: int,
    e: int,
)
    requires
        pre.wf(),
        0 <= index < pre.num_entities(),
        pre.remove_component_post(post, type_id, index, Ok(())),
        0 <= e < pre.num_entities(),
        e != index,
    ensures
        post.signature(e) == pre.signature(e),
        forall|i: int| 0 <= i < pre.stores@.len() ==> #[trigger] post.slot(i, e) == pre.slot(i, e),
{
    let pos = pre.position_of(type_id);
    if bit_set(pre.signature(index), pos as u32) {
        assert forall|i: int|
            0 <= i < pre.stores@.len() implies #[trigger] post.slot(i, e) == pre.slot(i, e) by {
            if i == pos {
                assert(post.stores@[i]@ == pre.stores@[i]@.update(
                    index,
                    None::<ComponentCell<C>>,
                ));
            } else {
                assert(post.stores@[i] == pre.stores@[i]);
            }
        }
    }
}

} // verus!
