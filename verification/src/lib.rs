//! A float-free data pipeline and evaluation harness for handwritten-digit
//! classification.
//!
//! Every quantity is a [`Fixed`] number: a signed count of billionths. Text
//! is turned into such numbers by a verified decimal parser, rows become
//! labelled examples, examples are partitioned into a training and a
//! validation part, and model outputs are scored against their targets. All
//! of it is exact integer arithmetic with a stated rounding rule.

pub mod config;
pub mod dataset;
pub mod decimal;
pub mod error;
pub mod evaluation;
pub mod fixed;
pub mod plan;
pub mod reader;

pub use error::PipelineError;
pub use fixed::Fixed;
