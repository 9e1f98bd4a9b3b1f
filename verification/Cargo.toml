[package]
name = "tunante"
version = "0.1.0"
edition = "2021"
publish = false

[dependencies]
base64 = "=0.22.1"
image = { version = "=0.25.10", default-features = false, features = ["png", "jpeg", "gif", "webp", "bmp"] }
serde_json = "=1.0.154"
log = "=0.4.35"
uuid = { version = "=1.29.0", features = ["v4"] }
async-io = "=2.6.0"
futures-lite = "=2.6.1"
zbus = "=5.19.0"
ksni = { version = "=0.3.7", default-features = false, features = ["blocking", "async-io"] }
smithay-client-toolkit = { version = "*", default-features = false, features = ["calloop"] }
