[package]
name = "pointcloud_cli"
version = "0.1.0"
edition = "2021"
publish = false

[dependencies]
byteorder = "1"
nalgebra = "*"
rand = "0.8"
rand_distr = "0.4"
rayon = "1"
serde = { version = "1", features = ["derive"] }
serde_json = "1"
serde_yaml = "0.9"
thiserror = "1"
clap = { version = "4", features = ["derive"] }
log = "0.4"
env_logger = "*"
indicatif = "0.17"
chrono = "0.4"
