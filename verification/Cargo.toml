[package]
name = "specs_ultra"
version = "0.1.0"
edition = "2021"
publish = false

[dependencies]
sysinfo = { version = "0.30", default-features = false }
reqwest = { version = "0.11", default-features = false, features = ["blocking", "rustls-tls"] }
