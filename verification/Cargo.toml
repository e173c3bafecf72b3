[package]
name = "plotters_gpui"
version = "0.1.0"
edition = "2021"
publish = false

[dependencies]
plotters = { version = "*", default-features = false }
plotters-backend = "*"
parking_lot = "*"
tracing = "*"
