[package]
name = "pingx"
version = "0.1.0"
edition = "2021"
publish = false

[dependencies]
anyhow = "=1.0.104"
async-trait = "=0.1.92"
clap = { version = "=4.6.7", features = ["derive"] }
colored = "=3.1.1"
dirs = "=7.0.0"
futures = "=0.3.34"
ip2location = "=0.6.1"
libc = "=0.2.190"
parking_lot = "=0.12.5"
reqwest = { version = "=0.13.5", default-features = false, features = ["rustls"] }
serde = { version = "=1.0.229", features = ["derive"] }
socket2 = { version = "=0.6.5", features = ["all"] }
surge-ping = "=0.9.1"
tokio = { version = "=1.53.2", features = ["full"] }
toml = "=1.1.7"
zip = { version = "=8.6.0", default-features = false, features = ["deflate"] }
