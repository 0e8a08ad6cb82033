[package]
name = "dof"
version = "0.1.0"
edition = "2021"
publish = false

[dependencies]
bollard = "*"
futures-util = "*"
tabled = "*"
tokio = { version = "*", features = ["macros", "rt", "time"] }
