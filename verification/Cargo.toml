[package]
name = "a010"
version = "0.1.0"
edition = "2021"
publish = false

[dependencies]
clap = { version = "4", features = ["derive"] }
futures = "0.3"
three-d = { version = "0.18", features = ["egui-gui"] }
tokio = { version = "1", features = ["macros", "rt-multi-thread", "sync"] }
tokio-serial = "5.4"
tokio-stream = "0.1"
tokio-util = { version = "0.7", features = ["codec"] }
