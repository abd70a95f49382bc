[package]
name = "st_loop"
version = "0.1.0"
edition = "2021"
publish = false

[dependencies]
wmidi = "=4.0.11"
crossbeam-channel = "=0.5.17"
tokio = { version = "=1.54.1", features = ["rt-multi-thread", "macros", "sync", "time"] }
jack = "=0.13.5"
hound = "=3.5.1"
rubato = "=0.16.2"
serde = { version = "=1.0.229", features = ["derive"] }
serde_yaml = "=0.9.34"
rosc = "=0.11.4"
