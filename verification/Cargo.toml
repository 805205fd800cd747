[package]
name = "rover_rtc"
version = "0.1.0"
edition = "2021"
publish = false

[dependencies]
bincode = "2"
chrono = "0.4"
str0m = "*"
rouille = "*"
reqwest = { version = "*", default-features = false, features = ["blocking"] }
serde_json = "1"
local-ip-address = "*"
systemstat = "*"
tracing = "0.1"
tracing-subscriber = { version = "0.3", features = ["env-filter"] }
