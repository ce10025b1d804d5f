[package]
name = "leqtion"
version = "0.2.0"
edition = "2021"
publish = false

[dependencies]
time = { version = "=0.3.55", features = ["formatting"] }
cpal = "=0.17.3"
rtrb = "=0.3.6"
realfft = "=3.5.1"
serde = { version = "=1.0.229", features = ["derive"] }
serde_json = "=1.0.154"
thiserror = "=2.0.21"
tracing = "=0.1.44"
