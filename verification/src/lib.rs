//! The exact part of an ellipsoid-fit magnetometer calibration: a streaming
//! accumulator of second moments over integer readings, the session that
//! feeds it, and the decisions and layouts of the solve that follows.

pub mod calibration;
pub mod error;
pub mod expand;
pub mod solver;
pub mod transpose;

pub use calibration::{design_row, CalibrationState, Partition, Sample};
pub use error::CalibrationError;
pub use expand::{index_degree, DegreeItem, Term};
pub use solver::{
    constraint_quarters, dominant_index, key_of, needs_negation, require_inverse, root_domain,
    shape_matrix, split_linear, CalibrationMatrix,
};
pub use transpose::SelfTranspose;
