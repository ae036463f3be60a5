[package]
name = "voip_lan"
version = "0.1.0"
edition = "2021"

[dependencies]
opus = "0.3"
cpal = "0.15"
