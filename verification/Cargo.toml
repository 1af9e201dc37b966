[package]
name = "serialmux"
version = "0.2.0"
edition = "2021"
publish = false

[dependencies]
bytes = "=1.12.1"
clap = { version = "4", features = ["derive"] }
crc32fast = "=1.5.4"
futures = "0.3"
libc = "0.2"
mio = { version = "1", features = ["os-poll", "os-ext", "net"] }
nix = { version = "0.29", features = ["term", "fs"] }
tokio = { version = "1", features = ["full"] }
tokio-util = { version = "0.7", features = ["codec"] }
tracing = "0.1"
tracing-appender = "0.2"
tracing-journald = "0.3"
tracing-subscriber = { version = "0.3", features = ["env-filter", "json"] }
