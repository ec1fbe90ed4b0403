[package]
name = "aicommit"
version = "0.1.0"
edition = "2021"
publish = false

[dependencies]
anyhow = "=1.0.104"
console = "=0.16.6"
directories = "=6.0.0"
indicatif = "=0.18.6"
inquire = { version = "=0.9.4", features = ["editor"] }
serde = { version = "=1.0.229", features = ["derive"] }
termimad = "=0.35.5"
textwrap = "=0.16.4"
thiserror = "=2.0.21"
tiktoken-rs = "=0.12.1"
tokio = { version = "=1.54.1", features = ["rt-multi-thread"] }
toml_edit = { version = "=0.25.17", features = ["serde"] }
