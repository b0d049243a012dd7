//! An in-memory entity-component-system runtime.
//!
//! Entities are integer indexes into parallel per-type component stores.
//! Each entity carries a bitmask signature recording which registered
//! component types it currently owns; queries match entities whose
//! signature is a superset of the requested mask and hand back either
//! columnar value snapshots or per-entity accessor handles with a
//! runtime shared/exclusive borrow discipline.

pub mod entities;
pub mod error;
pub mod query;
pub mod resources;
pub mod signature;
pub mod system;
pub mod world;
