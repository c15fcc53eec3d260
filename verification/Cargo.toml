[package]
name = "ipmb"
version = "0.8.0"
edition = "2021"
publish = false

[dependencies]
bincode = { version = "=2.0.0-rc.3", features = ["serde"] }
libc = "0.2"
log = "0.4"
once_cell = "1"
rand = "0.8"
serde = { version = "1", features = ["derive"] }
serde_bytes = "0.11"
smallvec = { version = "1", features = ["serde"] }
smol_str = { version = "0.2", features = ["serde"] }
thiserror = "1"
type-uuid = "0.1"
uuid = { version = "1", features = ["v4"] }
