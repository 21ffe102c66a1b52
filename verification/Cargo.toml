[package]
name = "cabal_runtime"
version = "0.1.0"
edition = "2021"
publish = false

[dependencies]
base64 = "0.22"
cap-std = "3"
cargo_metadata = "0.19"
fs2 = "0.4"
getrandom = "0.3"
ignore = "0.4"
proc-macro2 = { version = "1", features = ["span-locations"] }
quick-xml = "0.37"
quote = "1"
serde = { version = "1", features = ["derive"] }
serde_json = "1"
sha2 = "0.10"
similar = "2"
syn = { version = "2", features = ["full", "visit", "extra-traits"] }
