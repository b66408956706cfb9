[package]
name = "fakeblok"
version = "0.1.0"
edition = "2021"
publish = false

[dependencies]
slab = "*"
rand = "*"
serde = { version = "*", features = ["derive"] }
serde_json = "*"
tokio = { version = "*", features = ["full"] }
futures = "*"
once_cell = "*"
log = "*"
pretty_env_logger = "*"
