[package]
name = "hyperdemo"
version = "0.1.0"
edition = "2021"
publish = false

[dependencies]
nannou = "=0.19.0"
nannou_audio = "=0.19.0"
glicol = { version = "=0.13.5", features = ["use-samples"] }
audrey = "=0.3.0"
