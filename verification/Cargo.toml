[package]
name = "moneybot"
version = "0.1.0"
edition = "2021"
publish = false

[dependencies]
rand = "0.9"
rusqlite = { version = "*", features = ["load_extension"] }
thiserror = "2"
tokio = { version = "1", features = ["macros", "rt-multi-thread", "sync", "time"] }
serenity = "0.12"
poise = "0.6"
