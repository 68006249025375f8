[package]
name = "convolve-rs"
version = "0.1.0"
edition = "2021"
publish = false

[dependencies]
anyhow = "=1.0.104"
atfits-rs = { version = "=1.2.1", features = ["fitsio-src"] }
clap = { version = "=4.6.7", features = ["derive"] }
fitsio = { version = "=0.21.10", features = ["fitsio-src"] }
indicatif = "=0.18.6"
ndarray = "=0.17.2"
num-traits = "=0.2.19"
numpy = "=0.30.0"
pyo3 = "=0.30.1"
rayon = "=1.12.0"
realfft = "=3.5.1"
rustfft = "=6.4.1"
thiserror = "=2.0.21"
tracing = "=0.1.44"
tracing-subscriber = "=0.3.23"
