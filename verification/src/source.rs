//! Sources: what takes telemetry in from outside.
pub mod graphite;
