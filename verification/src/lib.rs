//! A primary/backup failover pair. The primary counts and announces each
//! value in a heartbeat; the backup listens, keeps the last value it heard,
//! and takes over when the heartbeats stop. This crate holds the decisions
//! of both roles; waiting, sending and launching are left to the caller.

pub mod counter;
pub mod encoding;
pub mod fault;
pub mod heartbeat;
pub mod monitor;
pub mod primary;
pub mod role;
pub mod text;
pub mod timing;
