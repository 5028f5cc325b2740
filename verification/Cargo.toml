[package]
name = "wireframe_edges"
version = "0.1.0"
edition = "2021"
publish = false

[dependencies]
three-d = { version = "0.18", features = ["window", "egui-gui"] }
three-d-asset = { version = "0.9", features = ["stl"] }
tokio = { version = "1", features = ["macros", "rt-multi-thread"] }
