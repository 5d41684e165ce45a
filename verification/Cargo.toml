[package]
name = "lc3-toolchain"
version = "0.1.0"
edition = "2021"
publish = false

[dependencies]
anyhow = "1"
clap = { version = "4", features = ["cargo"] }
codespan-reporting = "0.11"
console = "0.15"
either = "1"
pest = "2"
pest_derive = "2"
regex = "1"
serde = { version = "1", features = ["derive"] }
similar = { version = "2", features = ["inline"] }
toml = "0.8"
