[package]
name = "wdfist"
version = "0.1.0"
edition = "2021"
publish = false

[dependencies]
mediawiki = "=0.1.28"
mysql = "=16.1.0"
rayon = "=1.12.0"
regex = "=1.13.1"
serde_json = "=1.0.154"
