[package]
name = "quasicrystals"
version = "1.3.0"
edition = "2021"
publish = false

[dependencies]
clap = "=3.0.0-beta.2"
clap_derive = "=3.0.0-beta.2"
image = "0.23"
