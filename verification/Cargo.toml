[package]
name = "monotext"
version = "0.1.0"
edition = "2021"
publish = false

[dependencies]
textwrap = "*"
unicode-width = "*"
anyhow = "*"
pulldown-cmark = "*"
serde = { version = "*", features = ["derive"] }
serde_yaml = "*"
time = { version = "*", features = ["parsing"] }
printpdf = "*"
