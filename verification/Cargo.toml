[package]
name = "story_diff"
version = "0.1.0"
edition = "2021"
publish = false

[dependencies]
regex = "1"
clap = "2.33"
git2 = { version = "*", default-features = false }
serde = { version = "1", features = ["derive"] }
serde_json = "1"
