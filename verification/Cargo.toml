[package]
name = "parrot"
version = "0.1.0"
edition = "2021"
publish = false

[dependencies]
anyhow = "1"
bytes = "1"
csv = "1"
fasthash = "0.4"
futures = "0.3"
itertools = "*"
rusoto_core = { version = "0.48", default-features = false, features = ["rustls"] }
rusoto_polly = { version = "0.48", default-features = false, features = ["rustls"] }
structopt = "0.3"
tokio = { version = "1", features = ["macros", "rt-multi-thread", "fs", "io-util"] }
