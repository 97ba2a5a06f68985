[package]
name = "rowproj"
version = "0.1.0"
edition = "2021"
publish = false

[dependencies]
anyhow = "*"
serde = { version = "*", features = ["derive"] }
serde_yaml = "*"
thiserror = "*"
tiberius = "*"
tokio = { version = "*", features = ["net", "rt", "macros"] }
tokio-util = { version = "*", features = ["compat"] }

[dev-dependencies]
chrono = "*"
