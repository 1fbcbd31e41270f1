[package]
name = "stego_wave"
version = "0.1.0"
edition = "2021"
publish = false

[dependencies]
hound = "3.5"
rand = "=0.8.5"
rand_chacha = "=0.3.1"
clap = { version = "4", features = ["derive"] }
rpassword = "7"
serde = { version = "1", features = ["derive"] }
config = "*"
colored = "*"
thiserror = "*"
tokio = { version = "1", features = ["full"] }
actix-web = "4"
actix-multipart = "*"
futures = "0.3"
reqwest = { version = "0.12", default-features = false, features = ["multipart"] }
url = "2"
async-trait = "*"
