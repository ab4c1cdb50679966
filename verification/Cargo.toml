[package]
name = "game_report"
version = "0.1.0"
edition = "2021"
publish = false

[dependencies]
arnak = "=0.7.0"
serde = { version = "=1.0.229", features = ["derive"] }
tera = { version = "=2.4.0", features = ["glob_fs"] }
tokio = { version = "=1.53.2", features = ["rt", "rt-multi-thread", "time"] }
