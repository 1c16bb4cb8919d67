//! The verified core of a feed-forward neural-network trainer.
//!
//! The library owns what the network's numeric engine is built around: the
//! activation and optimizer kinds and their configuration names, the
//! structure and forward/backward lifecycle of dense layers and of the
//! network that chains them, the mini-batch split and the order of a training
//! run, the persisted model format, the per-epoch statistics log, and the
//! shared state of a training service. The `f32` arithmetic itself runs on
//! top of these types.

pub mod activations;
pub mod batching;
pub mod error;
pub mod layers;
pub mod matrix;
pub mod model;
pub mod persist;
pub mod service;
pub mod training;
pub mod visualization;
