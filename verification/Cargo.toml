[package]
name = "labelizer"
version = "0.1.0"
edition = "2021"
publish = false

[dependencies]
regex = "1"
serde_json = "1"
actix-web = "4"
reqwest = { version = "0.11", default-features = false, features = ["rustls-tls"] }
cached = "0.44"
futures = "0.3"
tracing = "0.1"
tracing-actix-web = "0.7"
dotenv = "0.15"
