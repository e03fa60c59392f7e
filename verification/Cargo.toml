[package]
name = "burkebudget"
version = "0.1.0"
edition = "2021"
publish = false

[dependencies]
chrono = "*"
rusqlite = { version = "*", features = ["bundled"] }
rusty-money = "*"
textplots = "*"
