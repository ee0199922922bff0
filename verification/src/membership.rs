//! The membership table of one node, and the rules by which it changes.
//!
//! A node owns its table. It changes when the local user asks to join or
//! leave, when a connection comes up or goes down, when a delta arrives
//! from a peer, and on every tick. Each of these is a function from the
//! table and the event to the next table and a list of actions; carrying
//! the actions out (opening and closing connections, sending deltas) is
//! left to whoever drives the node.
//!
//! `model` says what a table is and what each event makes of it, `table`
//! holds the table that runs, `laws` what follows from the rules at one
//! node, and `stats` the metrics of the component.

pub mod laws;
pub mod model;
pub mod stats;
pub mod table;

pub use laws::{
    lemma_broadcast, lemma_connected, lemma_established, lemma_leave, lemma_merge_arrival,
    lemma_merge_removal, lemma_owner_stays, lemma_put, lemma_tick_tidy,
};
pub use model::{ActionView, Change, DeltaView, MemberView, MembershipView};
pub use stats::{ClusterMetrics, ClusterMetricsView};
pub use table::{Action, Delta, Membership};
