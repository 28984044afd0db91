//! An in-memory message broker core: framed-XML frame handling, a bounded
//! FIFO queue of pending messages, an in-progress buffer of dispatched but
//! unacknowledged messages, per-consumer prefetch credit accounting, and the
//! fan-out pass that moves messages from the queue to consumer outboxes.

pub mod broker;
pub mod client;
pub mod codec;
pub mod in_progress;
pub mod message;
pub mod numparse;
pub mod queue;
pub mod registry;
pub mod xmlscan;
