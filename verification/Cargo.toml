[package]
name = "gridfit"
version = "0.1.0"
edition = "2021"
publish = false

[dependencies]
bytemuck = "1"
csv = "1"
futures-intrusive = "0.5"
naga = { version = "0.13", features = ["glsl-in"] }
time = "0.3"
tokio = { version = "1", features = ["macros", "rt-multi-thread"] }
wgpu = { version = "0.17", features = ["glsl"] }
