//! Plain-value parts of the UI primitives: lazy-loading state and the
//! navigator handler registry.

pub mod lazy;
pub mod navigator;
pub mod overlay;
