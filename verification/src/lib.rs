//! Core of a temporal interaction network explorer.
//!
//! A *link stream* is a set of nodes together with time-stamped links
//! ("who interacted with whom, and when"). This crate owns the two
//! algorithmic subsystems of such an explorer: a temporal interval index
//! that aggregates link activity over arbitrary time windows into an
//! interaction matrix, and the matrix utilities that normalize those
//! aggregates into node and edge weights.

pub mod lapper_index;
pub mod laws;
pub mod linkstream;
pub mod matrix;
pub mod sums;

pub use linkstream::DatasetError;
pub use linkstream::Link;
pub use linkstream::LinkStream;
pub use linkstream::LinkStreamData;
pub use matrix::EmptyInputError;
pub use matrix::Matrix;
