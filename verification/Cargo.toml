[package]
name = "frame_pipeline"
version = "0.1.0"
edition = "2021"
publish = false

[dependencies]
bincode = "=2.0.1"
remotia = "=0.1.6"
