//! Authoritative state core of a shared multiplayer simulation.
//!
//! The crate tracks connected participants, their pose, and a set of
//! user-owned programs (simulated robot controllers) together with each
//! program's live run state.  The host that delivers remote calls, stores
//! records durably and fires the periodic replication trigger stays outside;
//! this library holds the reconciliation rules themselves: presence
//! join/leave/re-join, create-or-update of program code, the run-control
//! state machine, ownership enforcement on every mutation, and clamping of
//! motor commands to the actuator-safe range.
//!
//! Every operation is specified against a mathematical model of the world
//! ([`model::WorldV`]) and verified: each command's contract pins down the
//! exact successor state and result for every input.

pub mod laws;
pub mod model;
pub mod motor;
pub mod records;
pub mod world;
