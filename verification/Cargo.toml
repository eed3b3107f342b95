[package]
name = "omp_desktop"
version = "0.1.0"
edition = "2021"
publish = false

[dependencies]
shell-words = "1"
base64 = "0.22"
serde = { version = "1", features = ["derive"] }
serde_json = "1"
rusqlite = { version = "0.32", features = ["bundled"] }
portable-pty = "0.8"
libc = "0.2"
tokio = { version = "1", features = ["process", "time", "rt", "rt-multi-thread", "macros", "sync"] }
open = "5"
