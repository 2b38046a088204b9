[package]
name = "arq_sim"
version = "0.1.0"
edition = "2021"
publish = false

[dependencies]
rand = "*"
clap = { version = "*", features = ["derive"] }
dotenvy = "*"
indicatif = "*"
rayon = "*"
tracing-subscriber = { version = "*", features = ["env-filter"] }
