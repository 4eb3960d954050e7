//! The decisions of a strip-packing optimizer.
pub mod equality;
pub mod eval;
pub mod layout;
pub mod optimizer;
pub mod scalar;
pub mod text;
pub mod tui;
