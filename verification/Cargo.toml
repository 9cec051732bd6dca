[package]
name = "ftl_stats"
version = "0.1.0"
edition = "2021"
publish = false

[dependencies]
memmap2 = "0.9"
libc = "0.2"
thiserror = "1"
serde = { version = "1", features = ["derive"] }
