[package]
name = "gameproc"
version = "0.1.0"
edition = "2021"
publish = false

[dependencies]
serde_json = "*"
process_alive = "*"
glob = "*"
log = "*"
fern = "*"
chrono = "*"
steamworks = "*"
