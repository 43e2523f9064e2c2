[package]
name = "kirie_scene"
version = "0.1.0"
edition = "2021"
publish = false

[dependencies]
blake3 = "=1.8.7"
serde_json = "=1.0.154"
bytemuck = { version = "=1.25.2", features = ["derive"] }
wgpu = { version = "=30.0.1", features = ["naga-ir"] }
naga = "=30.0.1"
cosmic-text = "=0.19.0"
thiserror = "=2.0.21"
tracing = "=0.1.44"
