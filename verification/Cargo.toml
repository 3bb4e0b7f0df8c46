[package]
name = "yaf2m"
version = "0.1.0"
edition = "2021"
publish = false

[dependencies]
ammonia = "=4.2.1"
ansi-to-html = "=0.2.4"
blake3 = "=1.8.7"
chrono = "=0.4.45"
feed-rs = "=3.0.0"
humantime = "=2.4.0"
lettre = { version = "=0.11.23", features = ["tokio1", "tokio1-native-tls"] }
log = "=0.4.34"
minijinja = { version = "=2.16.0", features = ["loader"] }
minijinja-contrib = "=2.16.0"
regex = "=1.13.1"
reqwest = { version = "=0.13.5", default-features = false }
serde = { version = "=1.0.229", features = ["derive"] }
serde_with = "=3.24.0"
sqlx = { version = "=0.9.0", default-features = false, features = ["runtime-tokio", "postgres", "chrono"] }
tokio = { version = "=1.53.2", features = ["rt-multi-thread", "macros", "time", "fs"] }
toml = "=1.1.7"
