[package]
name = "sql_json_path"
version = "0.1.0"
edition = "2021"
publish = false

[dependencies]
regex = "=1.13.1"
chrono = { version = "=0.4.45", default-features = false, features = ["alloc", "std"] }
serde_json = "=1.0.154"
thiserror = "=1.0.69"
