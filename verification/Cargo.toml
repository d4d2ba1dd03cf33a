[package]
name = "lic"
version = "0.1.0"
edition = "2021"
publish = false

[dependencies]
clap = { version = "4", features = ["derive"] }
colored = "2"
reqwest = { version = "0.11", features = ["json"] }
serde = { version = "1", features = ["derive"] }
serde_json = "1"
strsim = "0.10"
textwrap = "0.16"
tokio = { version = "1", features = ["macros", "rt-multi-thread"] }
toml = "0.5"
