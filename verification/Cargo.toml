[package]
name = "sat_tracker"
version = "0.1.0"
edition = "2021"
publish = false

[dependencies]
serde_json = "1"
substring = "1"
ureq = { version = "2", features = ["json"] }
hifitime = "3"
sgp4 = "*"
anyhow = "1"
