[package]
name = "odyssey"
version = "0.1.0"
edition = "2021"
publish = false

[dependencies]
zip = { version = "*", default-features = false, features = ["deflate"] }
png = "*"
serde = { version = "*", features = ["derive"] }
serde_yaml = "*"
serialport = { version = "*", default-features = false }
framebuffer = "*"
xattr = "*"
