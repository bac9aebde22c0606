[package]
name = "mdlint"
version = "0.1.0"
edition = "2021"
publish = false

[dependencies]
comrak = "*"
percent-encoding = "*"
unicode-normalization = "*"
serde_yml = "*"
serde = { version = "1", features = ["derive"] }
serde_json = "1"
toml = "*"
miette = { version = "*", features = ["fancy"] }
clap = { version = "4", features = ["derive"] }
ignore = "*"
rayon = "*"
