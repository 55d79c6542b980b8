[package]
name = "site"
version = "0.1.0"
edition = "2021"
publish = false

[dependencies]
glob = "0.3"
minify-html = { version = "0.3", default-features = false }
rayon = "1"
relative-path = "1"
tera = { version = "1", default-features = false }
url = "2"
