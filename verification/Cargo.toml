[package]
name = "llmperf"
version = "0.9.1"
edition = "2021"
publish = false

[dependencies]
anyhow = "1"
async-stream = "0.3"
chrono = "0.4"
clap = { version = "4", features = ["derive", "env"] }
env_logger = "0.11"
futures = "0.3"
indicatif = "0.17"
log = "0.4"
rand = "0.9"
regex = "1"
reqwest = { version = "0.12", default-features = false, features = ["json", "stream"] }
serde = { version = "1", features = ["derive"] }
serde_json = "1"
serde_with = "3"
sqlx = { version = "0.8", default-features = false, features = ["postgres", "runtime-tokio", "json"] }
statrs = "0.18"
tokenizers = { version = "0.21", default-features = false, features = ["onig", "http"] }
tokio = { version = "1", features = ["macros", "rt-multi-thread", "time", "sync"] }
zstd = "0.13"
