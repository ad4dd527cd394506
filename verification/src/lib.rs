//! A feed-forward neural network toolkit: the network container and its
//! plain-text format, the decisions of the training loop, and the encoding
//! of chess positions that feeds it.

pub mod activation;
pub mod chess;
pub mod decimal;
pub mod generator;
pub mod network;
pub mod number;
pub mod parse_config;
pub mod text;
pub mod training;
