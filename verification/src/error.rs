//! The error taxonomy of the runtime.

use vstd::prelude::*;

verus! {

/// Why an operation on the world, its entities or its resources failed.
///
/// Every failure is reported synchronously to the immediate caller;
/// nothing is retried or rolled back internally.
#[derive(Clone, Copy, Debug, PartialEq, Eq, Structural)]
pub enum EcsError {
    /// A component type was looked up that was never registered.
    UnregisteredComponent,
    /// The same component type was registered a second time.
    DuplicateRegistration,
    /// More component types were registered than the signature has bits.
    CapacityExceeded,
    /// An entity was asked for a component it does not currently hold.
    MissingComponent,
    /// A shared and an exclusive borrow of the same component would
    /// coexist, or a release did not pair with an outstanding borrow.
    BorrowConflict,
    /// A resource type was looked up that was never added.
    MissingResource,
}

impl EcsError {
    /// A short description of the failure.
    pub fn describe(&self) -> String {
        match self {
            EcsError::UnregisteredComponent => "component type was never registered".to_string(),
            EcsError::DuplicateRegistration => "component type was registered twice".to_string(),
            EcsError::CapacityExceeded => "no signature bit is left for another component type".to_string(),
            EcsError::MissingComponent => "entity does not hold this component".to_string(),
            EcsError::BorrowConflict => "conflicting borrow of the same component".to_string(),
            EcsError::MissingResource => "resource type was never added".to_string(),
        }
    }
}

} // verus!
