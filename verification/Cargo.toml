[package]
name = "rs_synth"
version = "0.1.0"
edition = "2021"
publish = false

[dependencies]
vst = "0.2"
