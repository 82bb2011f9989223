[package]
name = "fixme_report"
version = "0.1.0"
edition = "2021"
publish = false

[dependencies]
unidiff = "*"
handlebars = "*"
serde_json = "*"
serde = { version = "*", features = ["derive"] }
config = "*"
clap = "*"
