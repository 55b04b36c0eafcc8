//! An optimistic, rollback-based simulation kernel built around virtual time.
//!
//! Each logical process ("machine") keeps a local virtual clock and processes
//! messages in receive-timestamp order. When a straggler arrives — a message
//! whose receive time lies below the local clock — the machine restores the
//! most recent state snapshot taken before that time and issues antimessages
//! to cancel the outputs it sent during the rolled-back interval. A message
//! and its antimessage annihilate when they meet in a queue on either side of
//! a channel.

pub mod input_queue;
pub mod laws;
pub mod machine;
pub mod message;
pub mod output_queue;
pub mod queue_model;
pub mod state_history;
