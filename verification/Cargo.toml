[package]
name = "chariot"
version = "0.1.0"
edition = "2021"
publish = false

[dependencies]
mlua = { version = "0.10", features = ["lua54", "vendored"] }
log = "0.4"
colored = "2"
nix = { version = "0.29", features = ["signal"] }
thiserror = "2"
