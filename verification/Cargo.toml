[package]
name = "flarenv"
version = "0.1.0"
edition = "2021"
publish = false

[dependencies]
rand = "=0.10.3"
russh = "=0.65.0"
tokio = { version = "=1.54.1", features = ["net", "sync", "rt-multi-thread", "macros"] }
