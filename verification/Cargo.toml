[package]
name = "nocturned"
version = "0.1.0"
edition = "2021"
publish = false

[dependencies]
crc32fast = "1"
uuid = { version = "1", features = ["v4"] }
anyhow = "1"
base64 = "0.22"
bytes = "1"
futures = "0.3"
hex = "0.4"
libc = "0.2"
rmp-serde = "1"
rmpv = "1"
serde = { version = "1", features = ["derive"] }
serde_json = "1"
thiserror = "2"
tokio = { version = "1", features = ["full"] }
tokio-util = "0.7"
tracing = "0.1"
bluer = { version = "0.17", features = ["bluetoothd", "rfcomm"] }
dbus = "0.9"
dbus-crossroads = "0.5"
dbus-tokio = "0.7"
nnnoiseless = "0.5"
