[package]
name = "monochrome"
version = "0.1.0"
edition = "2021"
publish = false

[dependencies]
clap = "2"
image = "0.23"
