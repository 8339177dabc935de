[package]
name = "proxy_fetch"
version = "0.1.0"
edition = "2021"
publish = false

[dependencies]
rand = "0.8"
actix-web = { version = "4", default-features = false, features = ["macros"] }
reqwest = { version = "0.12", default-features = false, features = ["blocking"] }
serde = "1"
serde_derive = "1"
serde_json = "1"
log = "0.4"
log4rs = "1"
dotenv = "0.15"
