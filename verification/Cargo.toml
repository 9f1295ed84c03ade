[package]
name = "struxio"
version = "0.1.0"
edition = "2021"
publish = false

[dependencies]
sha2 = "*"
md5 = "*"
base64 = "*"
rand = "*"
chrono = "*"
uuid = { version = "*", features = ["v4", "serde"] }
serde = { version = "*", features = ["derive"] }
serde_json = "*"
jsonschema = { version = "*", default-features = false }
regex = "*"
thiserror = "*"
anyhow = "*"
async-trait = "*"
tracing = "*"
tokio = { version = "*", features = ["rt-multi-thread", "macros", "time"] }
axum = "*"
redis = { version = "*", features = ["tokio-comp", "streams", "script"] }
reqwest = { version = "*", default-features = false, features = ["json", "rustls-tls"] }
aws-sdk-s3 = "*"
aws-credential-types = "*"
