[package]
name = "rustconv"
version = "0.1.0"
edition = "2021"
publish = false

[dependencies]
image = { version = "=0.25.10", default-features = false, features = ["png", "jpeg"] }
rayon = "=1.12.0"
ndarray = { version = "=0.15.6", features = ["rayon"] }
ndarray-conv = "=0.1.3"
matrixmultiply = "=0.3.11"
blas = "=0.22.0"
clap = { version = "=4.6.7", features = ["derive"] }
indicatif = "=0.17.11"
serde_json = "=1.0.154"
allocation-counter = "=0.8.1"
once_cell = "=1.21.4"
futures = "=0.3.34"
bytemuck = "=1.25.2"
wgpu = "=0.19.4"
ocl = "=0.19.7"
cust = "=0.3.2"
cudarc = { version = "=0.12.1", default-features = false, features = ["std", "driver", "nvrtc", "cuda-12040"] }
