[package]
name = "lasermidi"
version = "0.2.0"
edition = "2021"
publish = false

[dependencies]
css-color-parser = "*"
docopt = "=1.1.1"
printpdf = { version = "=0.2.12", default-features = false }
rimd = "=0.0.1"
serde = { version = "1", features = ["derive"] }
serde_derive = "1"
serde_json = "1"
