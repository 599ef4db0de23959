[package]
name = "blazon"
version = "0.1.0"
edition = "2021"
publish = false

[dependencies]
facet = "=0.43.2"
facet-args = "=0.43.2"
miette = { version = "=7.6.0", features = ["fancy"] }
