[package]
name = "bartib"
version = "1.1.0"
edition = "2021"
publish = false

[dependencies]
anyhow = "1"
chrono = "0.4"
clap = "2"
nu-ansi-term = "0.46"
term_size = "0.3"
textwrap = "0.16"
thiserror = "1"
wildmatch = "2"
