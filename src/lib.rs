//! The verified core of a JSON-RPC gateway over a ledger store: the walk
//! that snapshots a component's reachable state, the lookups behind "show",
//! and the decisions of "run".

use vstd::prelude::*;

pub mod errors;
pub mod model;
pub mod address;
pub mod walk;
pub mod ledger;
pub mod resources;
pub mod show;
pub mod submit;
pub mod laws;
pub mod config;
