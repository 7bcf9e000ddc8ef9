//! Server-side synchronization engine for a shared list of named,
//! completable items.
//!
//! An authoritative store holds the items together with an explicit
//! display order; a connection hub tracks the live sessions; a session
//! handler turns each client request into a store mutation and the
//! event that is replied to the requester and broadcast to everyone
//! else; a replica applies those events to a client's local copy. The
//! transport (sockets, JSON framing) and the durable file live outside
//! this crate and exchange plain values with it.

pub mod hub;
pub mod laws;
pub mod persist;
pub mod proto;
pub mod replica;
pub mod session;
pub mod store;
