//! Orchestration core for alternately fuzzing a client and a server program
//! from process checkpoints: state identities, directory layout, coverage
//! deduplication and the scheduling loop's decisions.

pub mod state_id;
pub mod layout;
pub mod coverage;
pub mod node;
pub mod scheduler;
pub mod commands;
