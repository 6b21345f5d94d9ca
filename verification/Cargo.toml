[package]
name = "xhod"
version = "0.1.0"
edition = "2021"
publish = false

[dependencies]
anyhow = "1"
base64 = "*"
bitflags = "2"
data-encoding = "2"
getrandom = "*"
hmac = "*"
libc = "0.2"
rand_core = "*"
russh = "*"
russh-sftp = "*"
serde = { version = "1", features = ["derive"] }
sha1 = "*"
tokio = { version = "1", features = ["full"] }
toml = "*"
tracing = "0.1"
uuid = { version = "1", features = ["v4"] }
