[package]
name = "double_pendulum_classifier"
version = "0.1.0"
edition = "2021"
publish = false

[dependencies]
color-eyre = "0.6"
