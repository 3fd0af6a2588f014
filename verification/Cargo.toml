[package]
name = "rpc_gateway"
version = "0.1.0"
edition = "2021"
publish = false

[dependencies]
anyhow = "1"
async-trait = "0.1"
dotenvy = "0.15"
env_logger = { version = "0.11", default-features = false }
futures = "0.3"
lazy_static = "1"
log = "0.4"
moka = { version = "=0.12.16", default-features = false, features = ["sync"] }
regex = "=1.13.1"
reqwest = { version = "=0.11.27", default-features = false, features = ["json"] }
rocket = { version = "0.5", default-features = false, features = ["json", "uuid", "secrets"] }
rocket_cors = { version = "0.6", default-features = false }
rocket_okapi = { version = "0.9", default-features = false, features = ["swagger", "rapidoc", "uuid"] }
schemars = { version = "0.8", default-features = false, features = ["derive", "uuid1"] }
serde = { version = "1", features = ["derive"] }
serde_json = "1"
sqlx = { version = "0.8", default-features = false, features = ["runtime-tokio", "postgres", "uuid", "derive", "migrate"] }
thiserror = "1"
tokio-cron-scheduler = { version = "0.13", default-features = false }
url = "=2.5.8"
uuid = { version = "1", features = ["v4", "serde"] }
