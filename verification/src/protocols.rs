//! Wire protocols that a source can read.
pub mod graphite;
