[package]
name = "voidscale"
version = "0.1.0"
edition = "2021"
publish = false

[dependencies]
ahash = "=0.8.12"
smallvec = "=1.16.4"
tokio = { version = "=1.54.1", features = ["rt", "net", "io-util"] }
crossfire = "=3.1.22"
socket2 = { version = "=0.6.5", features = ["all"] }
core_affinity = "=0.8.3"
num_cpus = "=1.17.0"
mimalloc = "=0.1.52"
kanal = "=0.1.1"
oneshot = { version = "=0.2.1", features = ["async", "std"] }
thiserror = "=2.0.21"
bytes = "=1.12.1"
