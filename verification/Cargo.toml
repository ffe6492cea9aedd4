[package]
name = "dnsgen"
version = "0.1.0"
edition = "2021"
publish = false

[dependencies]
domain = { version = "=0.12.3", features = ["resolv", "resolv-sync"] }
getopts = "=0.2.24"
handlebars = "=6.4.4"
meval = "=0.2.0"
regex = "=1.13.1"
serde = "=1.0.229"
serde_json = "=1.0.151"
