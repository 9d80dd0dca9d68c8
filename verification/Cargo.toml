[package]
name = "councillor"
version = "0.1.0"
edition = "2021"
publish = false

[dependencies]
async-openai = { version = "=0.23.4", default-features = false, features = ["native-tls"] }
config = { version = "=0.14.1", default-features = false }
dotenv = "=0.15.0"
log = "=0.4.34"
pretty_env_logger = "=0.5.0"
serde = { version = "=1.0.229", features = ["derive"] }
serde_json = "=1.0.154"
# Not used by this crate itself. teloxide-core asks for takecell 0.1, and
# 0.1.2 needs a newer compiler than the one this crate is built with.
takecell = "=0.1.1"
teloxide = { version = "=0.12.2", features = ["macros"] }
tokio = { version = "=1.54.1", features = ["macros", "rt-multi-thread", "fs", "io-util", "sync", "time"] }
