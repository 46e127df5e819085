[package]
name = "diary_app_lib"
version = "0.1.0"
edition = "2021"
publish = false

[dependencies]
regex = "1"
time = { version = "0.3", features = ["parsing", "formatting", "macros"] }
difference = "2"
url = "2"
uuid = { version = "1", features = ["v4"] }
anyhow = "1"
serde = { version = "1", features = ["derive"] }
serde_json = "1"
tokio = { version = "1", features = ["full"] }
tokio-postgres = "0.7"
deadpool-postgres = "0.14"
log = "0.4"
env_logger = "0.11"
dirs = "5"
dotenvy = "0.15"
envy = "0.4"
structopt = "0.3"
jwalk = "0.8"
futures = "0.3"
time-tz = { version = "2", features = ["system"] }
aws-config = "1"
aws-sdk-s3 = "1"
rand = "0.8"
