[package]
name = "end_planner"
version = "0.1.0"
edition = "2021"
publish = false

[dependencies]
vector-map = "*"
anyhow = "*"
clap = { version = "*", features = ["derive"] }
serde = { version = "*", features = ["derive"] }
serde_json = "*"
toml = "*"
good_lp = { version = "*", default-features = false, features = ["microlp"] }
mlua = { version = "*", features = ["lua54", "vendored"] }
thiserror = "*"
log = "*"
smallvec = "*"
generativity = "*"
