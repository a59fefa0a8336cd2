[package]
name = "docgen"
version = "0.1.0"
edition = "2021"
publish = false

[dependencies]
clap = "=4.6.7"
colored = "=3.1.1"
comrak = "=0.55.0"
env_logger = "=0.11.11"
glob = "=0.3.4"
html5ever = "=0.39.0"
log = "=0.4.34"
markup5ever_rcdom = "=0.39.0"
quick-js = "=0.4.1"
serde_json = "=1.0.151"
serde_yaml = "=0.9.34"
