[package]
name = "css_parser_project"
version = "0.1.0"
edition = "2021"
publish = false

[dependencies]
clap = "4"
pest = "2"
regex = "1"
thiserror = "1"

[dev-dependencies]
anyhow = "1"
