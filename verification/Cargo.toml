[package]
name = "meml"
version = "0.1.0"
edition = "2021"
publish = false

[dependencies]
once_cell = "1"
pest = "2"
pest_derive = "2"
