[package]
name = "entangle"
version = "0.1.0"
edition = "2021"
publish = false

[dependencies]
sodiumoxide = "*"
serde = "*"
serde_derive = "*"
toml = "*"
nix = "0.23"
libc = "0.2"
anyhow = "*"
