//! The network: neurons, layers of neurons, and layers in sequence.

pub mod divergence;
pub mod layer;
pub mod network;
pub mod perceptron;
pub mod plan;
pub mod round_trip;
