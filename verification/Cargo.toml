[package]
name = "interpolatable"
version = "0.1.0"
edition = "2021"
publish = false

[dependencies]
munkres = "=0.5.2"
greencurves = "=0.2.1"
serde = { version = "=1.0.229", features = ["derive"] }
serde_json = "=1.0.151"
clap = { version = "=4.6.7", features = ["derive"] }
skrifa = "=0.48.0"

[dev-dependencies]
kurbo = "=0.11.3"
