[package]
name = "bullet_hell"
version = "0.3.1"
edition = "2021"
publish = false

[dependencies]
clap = "2.33"
flate2 = "1"
futures = "0.3"
rand = "0.7"
serde = { version = "1", features = ["derive"] }
serde_json = "1"
tokio = { version = "0.2", features = ["full"] }
warp = "0.2"
