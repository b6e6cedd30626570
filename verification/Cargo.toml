[package]
name = "expense_bot"
version = "0.1.0"
edition = "2021"
publish = false

[dependencies]
anyhow = "1"
chrono = "0.4"
chrono-tz = "*"
dotenvy = "*"
frankenstein = { version = "*", features = ["client-ureq"] }
rusqlite = { version = "*", features = ["bundled"] }
