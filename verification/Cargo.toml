[package]
name = "vertex_lang"
version = "0.1.0"
edition = "2021"
publish = false

[dependencies]
clap = { version = "=4.6.7", features = ["derive"] }
pest = "=2.9.4"
pest_derive = "=2.9.4"
regex = "1"
