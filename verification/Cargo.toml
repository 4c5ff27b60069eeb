[package]
name = "cri_headings"
version = "0.1.0"
edition = "2021"
publish = false

[dependencies]
anyhow = "*"
clap = { version = "*", features = ["derive"] }
futures = "*"
indicatif = "*"
reqwest = { version = "*", default-features = false, features = ["blocking", "json"] }
serde = { version = "*", features = ["derive"] }
time = "*"
tokio = { version = "*", features = ["rt-multi-thread", "macros"] }

[dev-dependencies]
csv = "*"
