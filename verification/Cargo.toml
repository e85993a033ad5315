[package]
name = "iedocs"
version = "0.1.0"
edition = "2021"
publish = false

[dependencies]
aes-gcm = "=0.10.3"
argon2 = "=0.5.3"
async-trait = "=0.1.92"
axum = { version = "=0.7.9", features = ["multipart"] }
base64 = "=0.22.1"
chrono = { version = "=0.4.45", features = ["serde"] }
dotenvy = "=0.15.7"
handlebars = "=6.4.4"
jsonwebtoken = "=9.3.1"
pdf-extract = "=0.7.12"
printpdf = "=0.7.0"
rand = "=0.8.8"
serde = { version = "=1.0.229", features = ["derive"] }
serde_json = "=1.0.154"
sha2 = "=0.10.9"
sqlx = { version = "=0.8.6", default-features = false, features = ["runtime-tokio", "postgres", "uuid", "chrono", "derive"] }
tempfile = "=3.27.0"
tokio = { version = "=1.54.1", features = ["full"] }
tower-http = { version = "=0.6.11", features = ["cors", "limit", "timeout", "trace"] }
tracing = "=0.1.44"
tracing-subscriber = { version = "=0.3.23", features = ["env-filter"] }
uuid = { version = "=1.29.0", features = ["v4", "serde"] }
zip = { version = "=0.6.6", default-features = false, features = ["deflate"] }
