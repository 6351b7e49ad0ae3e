[package]
name = "kafka_bigquery"
version = "0.1.0"
edition = "2021"
publish = false

[dependencies]
serde = { version = "1", features = ["derive"] }
serde_json = "1"
gcp-bigquery-client = "*"
rdkafka = "*"
tokio = { version = "1", features = ["rt-multi-thread", "macros"] }
yup-oauth2 = "*"
sqlx = { version = "*", default-features = false, features = ["postgres", "runtime-tokio", "json"] }
hocon = "*"
lazy_static = "1"
dotenv = "0.15"
env_logger = "*"
log = "0.4"
