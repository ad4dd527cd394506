//! Chess positions as network inputs, and the labels of their classes.

pub mod config;
pub mod dataset;
pub mod fen;
pub mod labels;
pub mod shape;
