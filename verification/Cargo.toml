[package]
name = "fpr-cli"
version = "0.1.0"
edition = "2021"
publish = false

[dependencies]
itertools = "*"
unicode-width = "*"
fuzzy-matcher = "*"
inquire = "*"
shellexpand = "*"
chrono = "*"
regex = "*"
thiserror = "*"
