[package]
name = "upspa_core"
version = "0.1.0"
edition = "2021"
publish = false

[dependencies]
anyhow = "1"
base64 = "0.22"
blake3 = { version = "1", default-features = false, features = ["pure", "std"] }
chacha20poly1305 = "0.10"
clap = { version = "4", features = ["derive"] }
console_error_panic_hook = "0.1"
curve25519-dalek = "4"
ed25519-dalek = { version = "2", features = ["rand_core"] }
hex = "0.4"
rand_chacha = "0.3"
rand_core = { version = "0.6", features = ["getrandom"] }
serde = { version = "1", features = ["derive"] }
serde-big-array = "0.5"
serde-wasm-bindgen = "0.6"
serde_json = "1"
thiserror = "1"
wasm-bindgen = "0.2"
