//! Client registry and command dispatch for a fleet of remote agents.
//!
//! A central service tracks the agents that register with it, hands each
//! of them at most one command at a time, and takes their reports of
//! liveness and progress. The crate holds the state of that service and
//! every rule by which it changes; it opens no socket and starts no task.
//!
//! - [`service`] is the service itself: registration, dispatch, completion,
//!   status requests and updates, status streams, and the sweep that evicts
//!   silent clients.
//! - [`model`] says what each of these operations does, as a function on
//!   maps, and [`laws`] proves what holds of them in every state.
//! - [`client`], [`command`] and [`metrics`] are the records that the
//!   service keeps, with the reserved metric keys that record a command.
//! - [`agent`] is the other side of the protocol: what an agent keeps, what
//!   it reports and how it recovers.
//! - [`strmap`] and [`text`] are the map and the text functions that the
//!   rest is built on.

pub mod agent;
mod ambient;
pub mod client;
pub mod command;
pub mod laws;
pub mod metrics;
pub mod model;
pub mod service;
pub mod strmap;
pub mod text;
