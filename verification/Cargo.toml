[package]
name = "gsp_ui"
version = "0.1.0"
edition = "2021"
publish = false

[dependencies]
anyhow = "1"
log = "0.4"
serde = { version = "1", features = ["derive"] }
serde_json = "1"
dirs = "5"
isolang = "2"
lingua = { version = "1", default-features = false, features = ["english", "french"] }
handy-keys = "*"
flate2 = "1"
tar = "0.4"
uuid = { version = "1", features = ["v4"] }
ureq = "2"
image = { version = "0.25", default-features = false, features = ["png"] }
x11-clipboard = "0.9"
arboard = "3"
rodio = "*"
