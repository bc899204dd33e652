[package]
name = "bongo"
version = "0.1.0"
edition = "2021"
publish = false

[dependencies]
mongodb = { version = "=3.9.1", features = ["sync"] }
tokio = { version = "=1.53.2", features = ["rt-multi-thread"] }
once_cell = "=1.21.4"
thiserror = "=2.0.21"
async-trait = "=0.1.92"
serde = { version = "=1.0.229", features = ["derive"] }
