//! Room-booking consistency core: a registry of meeting rooms, a ledger of
//! active occupancies, and the projections that split the rooms into
//! "available" and "active".
//!
//! The [`store::Store`] type plays the part of the backing relational store:
//! it owns the `rooms` and `occupancies` tables and enforces their
//! constraints (unique room names and codes, at most one active occupancy
//! per room, foreign keys). Every operation states exactly when it succeeds,
//! which error it returns otherwise, and how the tables change. An HTTP
//! façade is expected to serialize access to the store and to map the
//! [`errors::RoomError`] taxonomy onto wire responses.

pub mod errors;
pub mod models;
pub mod store;
pub mod timefmt;
