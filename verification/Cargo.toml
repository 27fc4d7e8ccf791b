[package]
name = "dragon"
version = "0.1.0"
edition = "2021"
publish = false

[dependencies]
anyhow = "1"
clap-verbosity-flag = "0.3"
json_comments = "0.2"
log = "0.4"
rand = "0.8"
serde_json = "1"
simple_logger = "1"
structopt = "0.3"
tempfile = "3"
uuid = { version = "0.8", features = ["v4"] }
