[package]
name = "gaia_maker"
version = "0.1.0"
edition = "2021"
publish = false

[dependencies]
anyhow = "1"
arrayvec = "0.7"
base64 = "0.22"
chrono = "0.4"
clap = { version = "4", features = ["derive"] }
dirs = "5"
flate2 = "1"
image = { version = "0.25", default-features = false, features = ["png"] }
log = "0.4"
regex = "1"
rmp-serde = "1"
sanitize-filename = "0.5"
serde = { version = "1", features = ["derive"] }
serde_json = "1"
smallvec = "1"
