[package]
name = "ssh_fleet"
version = "0.1.0"
edition = "2021"
publish = false

[dependencies]
cocoon = "=0.3.3"
ssh2 = "0.9"

[dev-dependencies]
bincode = "=1.3.3"
