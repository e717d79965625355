[package]
name = "compdb"
version = "0.1.0"
edition = "2021"
publish = false

[dependencies]
clap = { version = "*", features = ["derive"] }
serde = { version = "*", features = ["derive"] }
serde_json = "*"

[dev-dependencies]
regex = "*"
shlex = "*"
