[package]
name = "graphite_source"
version = "0.1.0"
edition = "2021"

[dependencies]
slog = "2"
