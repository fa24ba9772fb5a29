//! Fine-grained reactivity: signals, effects, scopes, refs and batching.
//!
//! The slot store (`arena`) keeps the dependency graph between signals and
//! effects; `state` and `context` take every decision of the runtime
//! without running a callback; `runtime` drives effect bodies over them.

pub mod arena;
pub mod state;
pub mod context;
pub mod runtime;
