[package]
name = "quantum_theory_engine"
version = "0.1.0"
edition = "2021"
publish = false

[dependencies]
chrono = { version = "0.4", features = ["serde"] }
clap = { version = "4", features = ["derive"] }
futures-util = "0.3"
ndarray = "*"
ndarray-linalg = "*"
notify = "*"
num-complex = { version = "0.4", features = ["serde"] }
once_cell = "1"
pest = "2"
pest_derive = "2"
rand = "0.8"
serde = { version = "1", features = ["derive"] }
serde_json = "1"
sha2 = "0.10"
thiserror = "1"
tokio = { version = "1", features = ["rt-multi-thread", "macros", "sync", "time"] }
tokio-tungstenite = "*"
uuid = { version = "1", features = ["v4", "serde"] }
