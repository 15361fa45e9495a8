//! A ledger-resident state machine that records good deeds.
//!
//! An authenticated actor logs an action; the machine keeps three records
//! mutually consistent: a global action counter, the identity of the most
//! recent contributor, and a per-actor tally. Read-only queries expose each
//! record with its default when it has never been written.

pub mod actor;
pub mod model;
pub mod state;
