//! Verified core of a distributed chat backend: identifiers, permissions,
//! mention parsing, CRDT merge engines, event-sourced projections, the
//! authentication primitives around them and the gateway session registry.

pub mod auth;
pub mod client;
pub mod cluster;
pub mod collections;
pub mod domain;
pub mod gateway;
pub mod mailbox;
pub mod text;
