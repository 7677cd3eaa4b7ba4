[package]
name = "tampio"
version = "0.1.2"
edition = "2021"
publish = false

[dependencies]
axum = "*"
clap = "*"
html-escape = "*"
itertools = "*"
serde = { version = "*", features = ["derive"] }
serde_json = "*"
time = { version = "*", features = ["formatting", "macros", "parsing"] }
tokio = { version = "*", features = ["full"] }
unicode-bidi = "*"
