//! Addressing, message algebra, wire records and cluster membership for an
//! actor runtime that spans several nodes.
//!
//! Every executable function carries a contract over the mathematical view
//! of its arguments, and the laws that relate several functions are stated
//! as public proof functions next to them.

pub mod cluster;
pub mod correlation_id;
pub mod envelope;
pub mod errors;
pub mod membership;
pub mod metrics;
pub mod msg;
pub mod node_id;
pub mod outstanding;
pub mod pb_messages;
pub mod pid;
pub mod router;
pub mod timer;
pub mod user_msg;

pub use correlation_id::{CorrelationId, ReplyRoute};
pub use envelope::Envelope;
pub use errors::{Error, MetricFault};
pub use membership::{Action, ClusterMetrics, Delta, Membership};
pub use metrics::{Metric, Metrics};
pub use msg::{Msg, Req, Rpy};
pub use node_id::NodeId;
pub use outstanding::Outstanding;
pub use pid::Pid;
pub use router::{Delivery, Kind, Registry, Undeliverable};
pub use timer::{Timer, TimerAction};
pub use user_msg::UserMsg;
