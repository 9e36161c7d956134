[package]
name = "kcptun_ui"
version = "0.1.0"
edition = "2021"
publish = false

[dependencies]
uuid = { version = "1", features = ["v4"] }
toml = "0.7"
serde = { version = "1", features = ["derive"] }
serde_derive = "1"
imgui = "0.11"
imgui-glium-renderer = "0.11"
imgui-winit-support = "0.11"
glium = { version = "0.32", default-features = false, features = ["glutin"] }
