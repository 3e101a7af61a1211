[package]
name = "timeseries_fft"
version = "0.1.0"
edition = "2021"
publish = false

[dependencies]
rustfft = "6"
wasm-bindgen = "0.2"
