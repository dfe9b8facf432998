[package]
name = "cargo-release-oxc"
version = "0.1.0"
edition = "2021"
publish = false

[dependencies]
anyhow = "1"
bpaf = { version = "0.9", features = ["derive"] }
cargo_metadata = "0.18"
crates_io_api = { version = "0.11", default-features = false, features = ["rustls"] }
git-cliff-core = "2"
glob = "0.3"
regex = "1"
serde = { version = "1", features = ["derive"] }
serde_json = "1"
toml = "0.8"
toml_edit = "0.22"
