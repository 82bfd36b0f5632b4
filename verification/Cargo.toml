[package]
name = "doctave"
version = "0.1.0"
edition = "2021"
publish = false

[dependencies]
alphanumeric-sort = "*"
pulldown-cmark = "*"
serde_yaml = "*"
serde_json = "*"
handlebars = "*"
elasticlunr-rs = "*"
clap = { version = "*", features = ["derive"] }
walkdir = "*"
notify = "*"
tungstenite = "*"
bus = "*"
crossbeam-channel = "*"
tiny_http = "*"
ascii = "*"
http = "*"
colorsys = "*"
scoped_threadpool = "*"
serde = { version = "*", features = ["derive"] }
