[package]
name = "einkrad"
version = "0.1.0"
edition = "2021"
publish = false

[dependencies]
mlua = { version = "0.10", features = ["luau"] }
raylib-ffi = "*"
raylib-sys = "*"
tokio = { version = "1", features = ["net", "rt-multi-thread", "macros", "io-util"] }
hashbrown = "*"
bincode = "1"
borsh = { version = "1", features = ["derive"] }
