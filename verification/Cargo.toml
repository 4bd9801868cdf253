[package]
name = "sluggen"
version = "0.1.0"
edition = "2021"
publish = false

[dependencies]
deunicode = "=1.6.2"
rand = "=0.10.3"
