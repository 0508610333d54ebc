[package]
name = "iai_callgrind_runner"
version = "0.1.0"
edition = "2021"
publish = false

[dependencies]
anyhow = "1"
colored = "2"
inferno = { version = "0.11", default-features = false }
log = "0.4"
proc-macro-error = "1"
proc-macro2 = "1"
quote = "1"
sanitize-filename = "0.5"
serde = { version = "1", features = ["derive"] }
shlex = "1.3"
syn = { version = "2", features = ["full", "extra-traits"] }
tempfile = "3"
version-compare = "0.2"
