[package]
name = "fuzzy_trade"
version = "0.1.0"
edition = "2021"
publish = false

[dependencies]
serde = { version = "1", features = ["derive"] }
csv = "1"
chrono = "0.4"
plotters = { version = "0.3", default-features = false, features = ["svg_backend", "chrono", "line_series"] }
