[package]
name = "nexus"
version = "0.1.0"
edition = "2021"
publish = false

[dependencies]
base64 = "=0.22.1"
lru = "=0.12.5"
rand = "=0.8.8"
rcgen = { version = "=0.13.2", default-features = false, features = ["crypto", "pem", "ring", "x509-parser"] }
rustls-pemfile = "=2.2.0"
rustls-pki-types = "=1.15.1"
subtle = "=2.6.1"
urlencoding = "=2.1.3"
uuid = { version = "=1.29.0", features = ["v4"] }
x509-cert = "=0.2.5"

anyhow = "=1.0.104"
async-stream = "=0.3.6"
clap = { version = "=4.6.7", features = ["derive", "env"] }
fuser = { version = "=0.14.0", default-features = false }
libc = "=0.2.191"
mdns-sd = "=0.11.5"
prost = "=0.13.5"
rustls = { version = "=0.23.46", default-features = false, features = ["ring", "std", "tls12"] }
serde = { version = "=1.0.229", features = ["derive"] }
serde_json = "1"
tokio = { version = "=1.54.1", features = ["full"] }
tokio-stream = "=0.1.19"
tonic = { version = "=0.12.3", features = ["tls"] }
tracing = "=0.1.44"
tracing-subscriber = { version = "=0.3.23", features = ["env-filter"] }
x11 = { version = "=2.21.0", features = ["xlib"] }
