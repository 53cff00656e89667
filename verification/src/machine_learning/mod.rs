//! Labelled examples and the networks trained on them.
pub mod dataset;
pub mod neural_network;
