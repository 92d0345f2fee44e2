//! The real-time gateway: the JSON frame protocol, the node-local session
//! registry with its replay buffers, and the decisions of a connection's
//! lifecycle.

pub mod hub;
pub mod presence;
pub mod protocol;
pub mod routes;
pub mod session;
pub mod user_route;
