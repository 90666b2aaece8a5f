[package]
name = "miniboosts"
version = "0.1.0"
edition = "2021"
publish = false

[dependencies]
rayon = "=1.12.0"
serde = { version = "=1.0.229", features = ["derive"] }
polars = { version = "=0.55.2", default-features = false }
grb = { version = "=3.0.1", features = ["gurobi12"] }
