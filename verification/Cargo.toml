[package]
name = "germ_core"
version = "0.1.0"
edition = "2021"
publish = false

[dependencies]
shlex = "=1.3.0"
anyhow = "=1.0.104"
clap = { version = "=4.6.7", features = ["derive"] }
colored = "=2.2.0"
fern = "=0.7.1"
log = "=0.4.35"
tokio = { version = "=1.54.1", features = ["macros", "rt-multi-thread", "process", "io-util", "net", "time"] }
nix = { version = "0.29", features = ["fs", "signal", "process"] }
