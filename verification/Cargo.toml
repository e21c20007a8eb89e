[package]
name = "emmett"
version = "0.1.0"
edition = "2021"
publish = false

[dependencies]
anyhow = "1"
atom_syndication = "0.12"
chrono = "0.4"
clap = { version = "4", features = ["derive"] }
config = "0.14"
env_logger = "0.11"
form_urlencoded = "1"
fs_extra = "1"
gray_matter = "0.2"
log = "0.4"
pulldown-cmark = "0.12"
pulldown-cmark-toc = "*"
regex = "1"
serde = { version = "1", features = ["derive"] }
slug = "0.1"
strip_markdown = "*"
syntect = { version = "5", default-features = false }
tera = "1"
walkdir = "2"
xml-rs = "0.8"
