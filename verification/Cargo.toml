[package]
name = "effy"
version = "0.1.0"
edition = "2021"
publish = false

[dependencies]
annotate-snippets = "0.12"
strip-ansi-escapes = "0.2"
yansi = "1"
relative-path = "1"
color-eyre = "0.6"
enable-ansi-support = "0.2"
tracing = "0.1"
tracing-subscriber = { version = "0.3", features = ["env-filter"] }
tracing-error = "0.2"
