[package]
name = "leo_asg"
version = "0.1.0"
edition = "2021"
publish = false

[dependencies]
indexmap = { version = "*", features = ["std"] }
serde = { version = "*", features = ["derive"] }
