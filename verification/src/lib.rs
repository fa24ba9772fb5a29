//! A single-threaded, fine-grained reactive runtime with a verified core,
//! plus the automation surface (element registry, robot queries, bridge
//! helpers), session storage and the scheduling fallbacks that sit on it.

pub mod seqs;
pub mod table;
pub mod reactive;
pub mod session;
pub mod scheduling;
pub mod reactive_value;
pub mod robot;
pub mod primitives;
pub mod resource;
