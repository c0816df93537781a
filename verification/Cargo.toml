[package]
name = "pidaw"
version = "0.1.0"
edition = "2021"
publish = false

[dependencies]
anyhow = "1"
cpal = "0.13"
iced = "0.3"
ndk-glue = "0.3"
