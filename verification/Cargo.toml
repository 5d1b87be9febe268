[package]
name = "rustwebui_app"
version = "0.1.0"
edition = "2021"
publish = false

[dependencies]
rusqlite = { version = "=0.40.2", features = ["bundled"] }
serde_json = "=1.0.151"
hostname = "=0.4.2"
whoami = "=2.1.3"
num_cpus = "=1.17.0"
log = "=0.4.34"
webui-rs = "*"
