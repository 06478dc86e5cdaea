[package]
name = "bracket_lexer"
version = "0.1.0"
edition = "2021"
publish = false

[dependencies]
clap = { version = "=4.6.7", features = ["derive"] }
num-bigint = "=0.4.8"
num-traits = "=0.2.19"
