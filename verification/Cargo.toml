[package]
name = "trex"
version = "0.1.0"
edition = "2021"
publish = false

[dependencies]
chrono = "0.4"
fnv = "1"
linear-map = "1"
lru-cache = "0.1"
ordered-float = "*"
owning_ref = "0.4"
r2d2 = "0.8"
r2d2_sqlite = { version = "*", features = ["bundled"] }
rusqlite = { version = "*", features = ["bundled"] }
rustc_apfloat = "*"
threadpool = "1"
