[package]
name = "sitegen"
version = "0.1.0"
edition = "2021"
publish = false

[dependencies]
pulldown-cmark = "*"
chrono = "*"
rss = "*"
atom_syndication = "*"
minijinja = "*"
toml = "*"
serde = { version = "*", features = ["derive"] }
glob = "*"
