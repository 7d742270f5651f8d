[package]
name = "compute"
version = "0.1.0"
edition = "2021"
publish = false

[dependencies]
chrono = { version = "=0.4.45", default-features = false, features = ["std", "clock", "serde"] }
rust_decimal = "=1.43.0"
cached = "=4.1.0"
serde = { version = "=1.0.229", features = ["derive"] }
thiserror = "=2.0.21"
utoipa = { version = "=6.0.0", features = ["chrono", "decimal"] }
polars = { version = "=0.55.2", default-features = false, features = ["dtype-date"] }

[dev-dependencies]
serde_json = "=1.0.154"
