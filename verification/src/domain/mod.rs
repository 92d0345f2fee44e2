//! Core entities and pure domain logic.

pub mod audit;
pub mod channel;
pub mod crdt;
pub mod dm;
pub mod entities;
pub mod event;
pub mod id;
pub mod invite;
pub mod mention;
pub mod permissions;
pub mod relationship;
pub mod role;
