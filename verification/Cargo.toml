[package]
name = "ddstats"
version = "0.1.0"
edition = "2021"
publish = false

[dependencies]
chrono = "0.4"
clap = { version = "4", features = ["derive"] }
csv = "1"
csv-diff = "*"
dotenv = "0.15"
dotenvy = "0.15"
rusqlite = "*"
serde = { version = "1", features = ["derive"] }
serde_with = "3"
simd-json = "*"
sqlx = { version = "0.8", default-features = false, features = ["runtime-tokio", "postgres", "chrono"] }
tar = "0.4"
tokio = { version = "1", features = ["full"] }
tracing = "0.1"
tracing-subscriber = "0.3"
ureq = "2"
zstd = "0.13"
