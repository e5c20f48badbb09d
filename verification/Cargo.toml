[package]
name = "mafia-bot"
version = "0.1.0"
edition = "2021"
publish = false

[dependencies]
rand = "0.9"
poise = "0.6"
tokio = { version = "1", features = ["macros", "rt-multi-thread", "sync"] }
dotenvy = "0.15"
