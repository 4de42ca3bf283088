[package]
name = "glm_os"
version = "1.7.0"
edition = "2021"
publish = false

[dependencies]
limine = "0.5"
