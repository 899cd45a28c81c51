[package]
name = "mediawiki_parser"
version = "0.1.0"
edition = "2021"
publish = false

[dependencies]
colored = "*"
serde = "*"
serde_derive = "*"
serde_json = "*"
serde_yaml = "*"
structopt = "*"
