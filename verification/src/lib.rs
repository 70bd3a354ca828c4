//! A UDP link-impairment engine: delay, jitter, loss, duplication and
//! reordering of datagrams, with the time-ordered queue that holds them
//! until they are due and the per-client session registry of a relay.

pub mod conditions;
pub mod network;
pub mod order;
pub mod pipeline;
pub mod proxy;
pub mod queue;
pub mod reorder;
pub mod session;
