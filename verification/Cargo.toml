[package]
name = "quizgen"
version = "0.1.0"
edition = "2021"
publish = false

[dependencies]
regex = "1"
rand = "0.8"
serde = { version = "1", features = ["derive"] }
serde_json = "1"
rusqlite = "*"
requestty = "*"
openai_api_rust = "*"
log = "0.4"
env_logger = "*"
reqwest = { version = "*", default-features = false, features = ["json"] }
tokio = { version = "1", features = ["macros", "rt-multi-thread"] }
hound = "*"
num_cpus = "1"
whisper-rs = "*"
