[package]
name = "devenv-shell"
version = "0.1.0"
edition = "2021"
publish = false

[dependencies]
avt = "=0.17.0"
libc = "=0.2.191"
portable-pty = "=0.9.0"
serde = { version = "=1.0.229", features = ["derive"] }
serde_json = "=1.0.154"
shell-escape = "=0.1.5"
strip-ansi-escapes = "=0.2.1"
thiserror = "=2.0.21"
tokio = { version = "=1.54.1", features = ["io-util", "macros", "net", "rt", "rt-multi-thread", "sync", "time"] }
tracing = "=0.1.44"
