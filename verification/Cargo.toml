[package]
name = "space_engineers"
version = "0.1.0"
edition = "2021"
publish = false

[dependencies]
base64 = "*"
chrono = "*"
crc = "*"
enumflags2 = "*"
flate2 = "*"
glam = "*"
proto_rs = "*"
serde = { version = "*", features = ["derive"] }
serde_json = "*"
uuid = { version = "*", features = ["v4"] }

[dev-dependencies]
deku = "*"
