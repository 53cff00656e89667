//! Activation and cost functions.
pub mod cost_functions;
pub mod functions;
