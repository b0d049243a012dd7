//! The aggregate root: one entity directory, one resource store, and
//! an ordered list of systems.

use vstd::prelude::*;

use crate::entities::Entities;
use crate::error::EcsError;
use crate::resources::Resources;
use crate::system::System;

verus! {

/// A world owns the entity directory and the resource store, and runs
/// its systems over them in registration order. The systems all have
/// one type; callers with several kinds of system supply an enum or
/// another dispatching type of their own.
pub struct World<C: Copy, R, S: System<C, R>> {
    /// The entity directory.
    pub entities: Entities<C>,
    /// The resource store.
    pub resources: Resources<R>,
    /// The systems, in the order `run` invokes them.
    pub systems: Vec<S>,
}

impl<C: Copy, R, S: System<C, R>> World<C, R, S> {
    /// The world's invariant: directory and store are well formed.
    pub open spec fn wf(self) -> bool {
        &&& self.entities.wf()
        &&& self.resources.wf()
    }

    /// A fresh world: nothing registered, no entities, no resources,
    /// no systems.
    pub fn new() -> (w: World<C, R, S>)
        ensures
            w.wf(),
            w.entities.num_entities() == 0,
            w.entities.num_registered() == 0,
            w.resources.contents() == Map::<u64, R>::empty(),
            w.systems@.len() == 0,
    {
        World { entities: Entities::new(), resources: Resources::new(), systems: Vec::new() }
    }

    /// Append `system` to the list `run` invokes.
    pub fn add_system(&mut self, system: S)
        requires
            old(self).wf(),
        ensures
            final(self).wf(),
            final(self).entities == old(self).entities,
            final(self).resources == old(self).resources,
            final(self).systems@ == old(self).systems@.push(system),
    {
        self.systems.push(system);
    }

    /// Invoke every system exactly once, in registration order, each
    /// with exclusive access to the entity directory and the resource
    /// store. A later system sees every mutation an earlier one made;
    /// a world without systems is left exactly as it was.
    pub fn run(&mut self)
        requires
            old(self).wf(),
        ensures
            final(self).wf(),
            final(self).systems == old(self).systems,
            old(self).systems@.len() == 0 ==> final(self).entities == old(self).entities
                && final(self).resources == old(self).resources,
    {
        let mut i: usize = 0;
        while i < self.systems.len()
            invariant
                self.entities.wf(),
                self.resources.wf(),
                self.systems == old(self).systems,
                i <= self.systems@.len(),
                old(self).systems@.len() == 0 ==> self.entities == old(self).entities
                    && self.resources == old(self).resources,
            decreases self.systems@.len() - i,
        {
            let system = &self.systems[i];
            system.run(&mut self.entities, &mut self.resources);
            i += 1;
        }
    }

    /// Register the component type named by `type_id` on the entity
    /// directory.
    pub fn register_component(&mut self, type_id: u64) -> (r: Result<(), EcsError>)
        requires
            old(self).wf(),
        ensures
            final(self).wf(),
            old(self).entities.register_post(final(self).entities, type_id, r),
            final(self).resources == old(self).resources,
            final(self).systems == old(self).systems,
    {
        self.entities.register_component(type_id)
    }

    /// Create one entity and return its index; attach components
    /// through the entity directory.
    pub fn create_entity(&mut self) -> (id: usize)
        requires
            old(self).wf(),
        ensures
            final(self).wf(),
            old(self).entities.create_post(final(self).entities, id),
            final(self).resources == old(self).resources,
            final(self).systems == old(self).systems,
    {
        self.entities.create_entity()
    }

    /// Store `resource` under `type_id`, replacing any value the key
    /// already held.
    pub fn create_resource(&mut self, type_id: u64, resource: R)
        requires
            old(self).wf(),
        ensures
            final(self).wf(),
            final(self).resources.contents() == old(self).resources.contents().insert(
                type_id,
                resource,
            ),
            final(self).entities == old(self).entities,
            final(self).systems == old(self).systems,
    {
        self.resources.add(type_id, resource);
    }

    /// Delete the resource stored under `type_id`, if any.
    pub fn remove_resource(&mut self, type_id: u64)
        requires
            old(self).wf(),
        ensures
            final(self).wf(),
            final(self).resources.contents() == old(self).resources.contents().remove(type_id),
            final(self).entities == old(self).entities,
            final(self).systems == old(self).systems,
    {
        self.resources.remove(type_id);
    }

    /// A shared reference to the resource stored under `type_id`.
    pub fn get_resource(&self, type_id: u64) -> (r: Result<&R, EcsError>)
        requires
            self.wf(),
        ensures
            match r {
                Ok(v) => self.resources.contents().contains_key(type_id) && *v
                    == self.resources.contents()[type_id],
                Err(e) => e == EcsError::MissingResource
                    && !self.resources.contents().contains_key(type_id),
            },
    {
        self.resources.get_ref(type_id)
    }

    /// An exclusive reference to the resource stored under `type_id`.
    /// The caller must have added one first.
    pub fn get_resource_mut(&mut self, type_id: u64) -> (r: &mut R)
        requires
            old(self).wf(),
            old(self).resources.contents().contains_key(type_id),
        ensures
            *r == old(self).resources.contents()[type_id],
            final(self).wf(),
            final(self).resources.contents() == old(self).resources.contents().insert(
                type_id,
                *final(r),
            ),
            final(self).entities == old(self).entities,
            final(self).systems == old(self).systems,
    {
        self.resources.get_mut(type_id)
    }
}

} // verus!
