[package]
name = "hk"
version = "0.1.0"
edition = "2021"
publish = false

[dependencies]
chrono = "*"
clap = { version = "*", features = ["derive"] }
clx = "*"
console = "*"
ensembler = "*"
expr-lang = "*"
eyre = "*"
git2 = { version = "*", default-features = false }
itertools = "*"
log = "*"
serde = { version = "*", features = ["derive"] }
strum = { version = "*", features = ["derive"] }
tracing = "*"
xx = "*"
