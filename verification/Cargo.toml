[package]
name = "pingpong"
version = "0.1.0"
edition = "2021"
publish = false

[dependencies]
anyhow = "=1.0.104"
async-trait = "=0.1.92"
http = "=1.5.0"
log = "=0.4.34"
once_cell = "=1.21.4"
pingora = { version = "=0.3.0", features = ["lb"] }
regex = "=1.13.1"
serde = { version = "=1.0.229", features = ["derive"] }
simplelog = "=0.12.2"
structopt = "=0.3.26"
toml = { version = "=0.8.23", features = ["preserve_order"] }
urlencoding = "=2.1.3"
