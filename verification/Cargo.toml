[package]
name = "lxsp"
version = "0.1.0"
edition = "2021"
publish = false

[dependencies]
clap = { version = "4", features = ["derive"] }
once_cell = "1"
rustyline = "9"
terminal = "0.2"
