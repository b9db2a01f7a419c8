[package]
name = "testdata_gen"
version = "0.1.0"
edition = "2021"
publish = false

[dependencies]
rand = "*"
uuid = { version = "*", features = ["v4"] }
tar = "*"
flate2 = "*"
clap = { version = "*", features = ["derive"] }

[dev-dependencies]
serde_json = "*"
