[package]
name = "dotenv_buildpack"
version = "0.1.0"
edition = "2021"
publish = false

[dependencies]
libcnb = "=0.30.4"
serde = { version = "=1.0.229", features = ["derive"] }
