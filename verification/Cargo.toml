[package]
name = "nico_bbs"
version = "0.1.0"
edition = "2021"
publish = false

[dependencies]
kuchikiki = "*"
anyhow = "*"
chrono = "*"
tokio = { version = "*", features = ["full"] }
reqwest = { version = "*", default-features = false }
sqlx = { version = "*", default-features = false, features = ["postgres", "runtime-tokio", "chrono"] }
aws-config = "*"
aws-sdk-s3 = "*"
niconico = "*"
secrecy = "*"
dotenvy = "*"
envy = "*"
tempfile = "*"
