[package]
name = "ntix_rs"
version = "0.1.0"
edition = "2021"
publish = false

[dependencies]
sha2 = "0.10"
anyhow = "1"
async-trait = "0.1"
clap = { version = "4", features = ["derive"] }
colored = "*"
dirs = "*"
futures = "0.3"
indicatif = "*"
mlua = { version = "*", features = ["lua54", "vendored"] }
pathdiff = "0.2"
serde = { version = "1", features = ["derive"] }
serde_json = "1"
tokio = { version = "1", features = ["full"] }
windows = { version = "*", features = ["Win32_Foundation", "Win32_Security", "Win32_Storage_FileSystem"] }
