//! A line-oriented publish/subscribe broker core: the wire codec that parses
//! commands and serializes replies, the subscription engine that owns the
//! topic-to-subscriber state and computes each command's deliveries, and the
//! per-connection session state machine. The surrounding socket and task
//! plumbing lives outside this library and hands it plain values.

pub mod laws;
pub mod protocol;
pub mod pub_sub_topics;
pub mod result;
pub mod session;
