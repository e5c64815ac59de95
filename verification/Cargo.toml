[package]
name = "kaonic"
version = "0.1.0"
edition = "2021"
publish = false

[dependencies]
roxmltree = "0.20"
sha2 = "0.10"
cidr = "0.2"
rmp-serde = "1"
serde = { version = "1", features = ["derive"] }
qrcodegen = "1"
tokio = { version = "1", features = ["rt-multi-thread", "macros", "net", "time", "signal", "sync"] }
tokio-util = "0.7"
socket2 = "0.5"
if-addrs = "0.13"
clap = { version = "4", features = ["derive"] }
env_logger = "0.11"
log = "0.4"
rand = "0.8"
libc = "0.2"
rcgen = "0.13"
p256 = { version = "0.13", features = ["ecdsa", "pkcs8"] }
