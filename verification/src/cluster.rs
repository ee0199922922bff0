//! A model of a whole cluster: the tables of its nodes and what is in
//! flight between them.
//!
//! The model exists only in specifications. It runs the rules of
//! `membership` for every node, lets requests, deliveries and ticks happen
//! in any order, and is what the laws about convergence and about leaving
//! are stated of.

pub mod convergence;
pub mod leave;
pub mod measure;
pub mod model;
pub mod safety;

pub use convergence::{
    lemma_deliver_progress, lemma_settles, theorem_convergence, theorem_eventually_consistent,
};
pub use leave::theorem_leave_propagates;
pub use model::{Cluster, Packet, Step};
pub use safety::{lemma_run_inv, lemma_start_inv, lemma_step_inv};
