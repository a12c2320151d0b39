[package]
name = "mdview"
version = "0.1.0"
edition = "2021"
publish = false

[dependencies]
pulldown-cmark = "0.13"
syntect = { version = "5", default-features = false, features = ["default-fancy"] }
ratatui = "0.29"
crossterm = "0.28"
tokio = { version = "1", features = ["full"] }
clap = { version = "4", features = ["derive"] }
notify = "6"
open = "5"
anyhow = "1"
