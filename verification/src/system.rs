//! The system capability.

use vstd::prelude::*;

use crate::entities::Entities;
use crate::resources::Resources;

verus! {

/// One unit of externally supplied logic, invoked once per world tick
/// with exclusive access to the entity directory and the resource
/// store. An implementation may mutate both freely, but must leave
/// them well formed and must not retain the references beyond the
/// call.
pub trait System<C: Copy, R> {
    /// Perform one unit of work.
    fn run(&self, entities: &mut Entities<C>, resources: &mut Resources<R>)
        requires
            old(entities).wf(),
            old(resources).wf(),
        ensures
            final(entities).wf(),
            final(resources).wf(),
    ;
}

} // verus!
