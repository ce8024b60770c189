//! Shared movie list with crowd-sourced ratings: an authoritative record
//! store, the mutations that change it, a bus that fans change events out to
//! live subscribers, and the client-side replica and sort logic that consume
//! those events.

pub mod bus;
pub mod events;
pub mod movies;
pub mod mutation;
pub mod rating;
pub mod reconcile;
pub mod secrets;
pub mod sort;
pub mod store;
