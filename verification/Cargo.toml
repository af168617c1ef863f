[package]
name = "nazr_backend_sqlite"
version = "0.1.0"
edition = "2021"
publish = false

[dependencies]
sha2 = "0.10"
hex = "0.4"
mime_guess = "2"
xxhash-rust = { version = "0.8", features = ["xxh3"] }
