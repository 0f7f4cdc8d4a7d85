[package]
name = "sqlgen"
version = "0.1.0"
edition = "2021"
publish = false

[dependencies]
rbs = "4"
fastdate = "0.3"
serde = { version = "1", features = ["derive"] }
