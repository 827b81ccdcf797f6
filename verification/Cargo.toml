[package]
name = "dotenv_enum"
version = "0.1.0"
edition = "2021"
publish = false

[dependencies]
dotenv = "*"
strum = "*"
strum_macros = "*"
