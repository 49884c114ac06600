[package]
name = "tiled2saturn"
version = "0.1.0"
edition = "2021"
publish = false

[dependencies]
clap = "*"
tiled = "*"
tinybmp = "*"
embedded-graphics = "*"
