[package]
name = "veronica"
version = "0.1.0"
edition = "2021"
publish = false

[dependencies]
bincode = "=1.3.3"
chrono = { version = "=0.4.45", features = ["serde"] }
csv = "=1.4.0"
getopts = "=0.2.24"
plotly = "=0.14.1"
reqwest = { version = "=0.13.5", default-features = false, features = ["blocking", "json"] }
serde = { version = "=1.0.229", features = ["derive"] }
serde_yaml = "=0.9.34"
sled = "=0.34.7"
url = "=2.5.8"
