[package]
name = "wavecast"
version = "0.1.0"
edition = "2021"
publish = false

[dependencies]
crossbeam-channel = "0.5"
ringbuf = "0.3"
hound = "3"
cpal = "0.14"
