[package]
name = "gamerooms"
version = "0.1.0"
edition = "2021"
publish = false

[dependencies]
bincode = "=1.3.3"
lunatic = "=0.7.4"
rmp = "=0.8.10"
serde = { version = "=1.0.229", features = ["derive"] }
structopt = "=0.3.26"
tokio = { version = "=1.54.1", features = ["full"] }
