[package]
name = "bristol_circuit"
version = "0.1.0"
edition = "2021"
publish = false

[dependencies]
serde = { version = "1", features = ["derive"] }
thiserror = "1"
strum = "0.26"
strum_macros = "0.26"
