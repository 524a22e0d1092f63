[package]
name = "tfparse"
version = "0.1.0"
edition = "2021"
publish = false

[dependencies]
itertools = "*"
serde = { version = "1", features = ["derive"] }
serde_yaml = "*"
structopt = "*"
exitfailure = "*"
tokio = { version = "1", features = ["macros", "rt-multi-thread"] }
reqwest = { version = "*", default-features = false }
async-trait = "*"
anyhow = "1"
