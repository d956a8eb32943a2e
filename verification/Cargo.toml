[package]
name = "nih_plug"
version = "0.1.0"
edition = "2021"
publish = false

[dependencies]
anyhow = "1"
clap-sys = "*"
raw-window-handle = "0.5"
