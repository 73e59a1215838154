[package]
name = "cozo_core"
version = "0.1.0"
edition = "2021"
publish = false

[dependencies]
anyhow = "1"
miette = "5"
ordered-float = "3"
pest = "2"
