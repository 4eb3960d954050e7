//! The terminal user interface around an optimization.
pub mod listener;
pub mod runtime;
pub mod signals;
