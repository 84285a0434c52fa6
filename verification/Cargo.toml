[package]
name = "auv_frame_loop"
version = "0.1.0"
edition = "2021"
publish = false

[dependencies]
clap = { version = "=4.6.7", features = ["derive"] }
image = { version = "=0.25.10", default-features = false, features = ["png"] }
ndarray = "=0.17.2"
ort = { version = "=2.0.0-rc.15", default-features = false, features = ["std", "ndarray", "load-dynamic", "coreml"] }
tokio = { version = "=1.54.1", features = ["macros", "rt-multi-thread", "time"] }
tonic = { version = "=0.14.9", default-features = false, features = ["codegen"] }
uuid = { version = "=1.29.0", features = ["v7"] }
