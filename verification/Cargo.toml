[package]
name = "gaugemc"
version = "0.1.0"
edition = "2021"
publish = false

[dependencies]
cudarc = { version = "0.16", default-features = false, features = ["std", "driver", "nvrtc", "curand", "dynamic-loading", "cuda-12080"] }
hashbrown = "0.15"
ndarray = "0.16"
ndarray-rand = "0.15"
rayon = "1"
