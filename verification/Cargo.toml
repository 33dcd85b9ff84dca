[package]
name = "konedrive_sync"
version = "0.1.0"
edition = "2021"
publish = false

[dependencies]
async-trait = "0.1"
libc = "0.2"
nix = { version = "0.30", features = ["fs", "socket", "uio", "user", "ioctl", "dir"] }
thiserror = "2"
tokio = { version = "1", features = ["full"] }
tokio-util = "0.7"
tracing = "0.1"
xattr = "1"
zbus = { version = "5", default-features = false, features = ["tokio"] }
