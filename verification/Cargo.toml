[package]
name = "wiki_xml"
version = "0.1.0"
edition = "2021"
publish = false

[dependencies]
quick-xml = "*"
rayon = "*"
regex = "*"
rustc-hash = "*"
serde = { version = "1", features = ["derive"] }
serde_json = "1"
