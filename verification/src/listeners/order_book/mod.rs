//! The listener that keeps the order books up to date.

pub mod batch_laws;
pub mod batch_queue;
pub mod block_laws;
pub mod consistency;
pub mod error;
pub mod fetch_plan;
pub mod l2;
pub mod line_laws;
pub mod listener;
pub mod listener_laws;
pub mod message_laws;
pub mod messages;
pub mod model;
pub mod snapshot_check;
pub mod snapshot_laws;
pub mod source;
pub mod state;
pub mod state_laws;
pub mod supervisor;
pub mod work_laws;
