//! A verified orchestration library for a small tabular-classification
//! pipeline: decoding a (possibly gzip-compressed) numeric CSV into a
//! rectangular matrix, assembling a labeled dataset, deterministically
//! shuffling and splitting it under a fixed seed, and sequencing the
//! stages that a model-training driver runs.
//!
//! Floating-point model training (decision trees, feature scaling,
//! confusion matrices) is delegated to an external machine-learning
//! library by the driver; this crate holds and verifies everything that
//! decides the shape and membership of the data those models see.

pub mod dataset;
pub mod decode;
pub mod errors;
pub mod pipeline;
pub mod rng;
pub mod split;
