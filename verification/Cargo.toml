[package]
name = "revdeps"
version = "0.1.0"
edition = "2021"
publish = false

[dependencies]
anyhow = "*"
cargo = "=0.96.0"
cargo-credential-libsecret = "=0.5.6"
cargo-credential-macos-keychain = "=0.4.21"
cargo-credential-wincred = "=0.4.21"
cargo-platform = "*"
cargo-util = "=0.2.28"
cargo-util-schemas = "=0.13.0"
kstring = "=2.0.0"
crates-index = { version = "*", default-features = false }
semver = "*"
serde = { version = "*", features = ["derive"] }
serde_json = "*"
toml = "*"
