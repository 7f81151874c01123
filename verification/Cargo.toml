[package]
name = "flock"
version = "0.1.0"
edition = "2021"
publish = false

[dependencies]
pcg_rand = "=0.13.0"
rand = "=0.8.8"
urlencoding = "=2.1.3"
instant-glicko-2 = "=0.1.0"
config = "=0.15.27"
serde = { version = "=1.0.229", features = ["derive"] }
rmp-serde = "=1.3.1"
ulid = "=3.0.0"
