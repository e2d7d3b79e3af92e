[package]
name = "pages"
version = "0.1.0"
edition = "2021"
publish = false

[dependencies]
anyhow = "1"
chrono = "0.4"
git2 = { version = "*", default-features = false }
handlebars = "4"
pulldown-cmark = { version = "0.9", default-features = false }
rayon = "1"
serde = { version = "1", features = ["derive"] }
serde_json = "1"
serde_yaml = "*"
