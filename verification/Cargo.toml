[package]
name = "the_sieve"
version = "0.1.0"
edition = "2021"
publish = false

[dependencies]
pulldown-cmark = { version = "0.10", default-features = false }
clap = { version = "4", features = ["derive"] }
thiserror = "1"
anyhow = "1"
krilla = "*"
parley = "*"
typst = "*"
typst-pdf = "*"
ecow = "*"
