[package]
name = "git_history"
version = "0.1.0"
edition = "2021"
publish = false

[dependencies]
anyhow = "=1.0.104"
clap = { version = "=4.6.7", features = ["derive"] }
codeowners = "=0.1.3"
gix = "=0.90.0"
glob = "=0.2.11"
lasso = { version = "=0.7.3", features = ["multi-threaded"] }
num-format = "=0.4.4"
rayon = "=1.12.0"
regex = "=1.13.1"
serde = { version = "=1.0.229", features = ["derive"] }
serde_json = "=1.0.154"
