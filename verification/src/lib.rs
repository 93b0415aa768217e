//! The core of a coverage-guided fuzzing engine: the encoding of observed
//! program behaviour into features, the sensors that collect what one run of
//! the test function shows, and the pool that keeps the least complex inputs
//! known to reproduce each failure.
//!
//! The state of the terminal interface of the accompanying tool is in [`ui`].

pub mod artifacts_pool;
pub mod code_coverage_sensor;
pub mod decimal;
pub mod either;
pub mod feature;
pub mod hbitset;
pub mod pool_laws;
pub mod pool_model;
pub mod random;
pub mod sensor_and_pool;
pub mod ui;

pub use crate::artifacts_pool::{ArtifactsPool, TestFailure, TestFailureSensor};
pub use crate::code_coverage_sensor::CodeCoverageSensor;
pub use crate::feature::{Feature, FeatureKind, InstrFeatureWithoutTag};
pub use crate::hbitset::HBitSet;
pub use crate::sensor_and_pool::{CompatibleWithSensor, CorpusDelta, Pool, Sensor};
