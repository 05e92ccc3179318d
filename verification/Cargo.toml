[package]
name = "burst"
version = "0.1.0"
edition = "2021"
publish = false

[dependencies]
rand = "0.8"
failure = "0.1"
rusoto_core = { version = "0.48", default-features = false, features = ["rustls"] }
rusoto_ec2 = { version = "0.48", default-features = false, features = ["rustls"] }
rusoto_credential = "0.48"
ssh2 = "0.9"
tempfile = "3"
tokio = { version = "1", features = ["macros", "rt-multi-thread", "time"] }
