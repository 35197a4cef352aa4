//! Pricing and accounting engine of a constant-product market maker.

pub mod math;
pub mod state;
pub mod pricing;
pub mod engine;
pub mod laws;
pub mod program;
