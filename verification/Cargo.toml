[package]
name = "record_harvester"
version = "0.1.0"
edition = "2021"
publish = false

[dependencies]
gokz_rs = { version = "=0.24.3", features = ["global-api"] }
tokio = { version = "=1.53.2", features = ["macros", "rt-multi-thread", "time"] }

[dev-dependencies]
serde_json = "=1.0.151"
