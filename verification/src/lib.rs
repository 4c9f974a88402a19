//! A checkpoint queue: the deterministic state machine with which a
//! multi-signatory custody system batches deposits and withdrawals into
//! threshold-signed Bitcoin transactions, each spending the previous
//! checkpoint's reserve output.

pub mod error;
pub mod util;
pub mod tx;
pub mod btc;
pub mod sigset;
pub mod threshold;
pub mod checkpoint;
pub mod queue;
pub mod laws;
