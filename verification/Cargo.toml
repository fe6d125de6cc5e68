[package]
name = "rkbx_link"
version = "0.1.0"
edition = "2021"
publish = false

[dependencies]
binrw = "=0.14.2"
rekordcrate = "=0.3.0"
reqwest = { version = "=0.12.28", default-features = false, features = ["blocking", "rustls-tls"] }
toy-arms = { version = "=0.9.4", default-features = false, features = ["external"] }
