[package]
name = "midi_engine"
version = "0.1.1"
edition = "2021"
publish = false

[dependencies]
libc = "0.2"
log = "0.4"
thiserror = "1"
