[package]
name = "cppwatch"
version = "0.1.0"
edition = "2021"
publish = false

[dependencies]
clap = { version = "=4.4.18", features = ["derive"] }
colored = "=2.2.0"
tokio = { version = "=1.44.2", features = ["macros", "rt-multi-thread", "sync", "time", "process", "signal", "fs"] }
