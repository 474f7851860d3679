[package]
name = "mdbook_protobuf"
version = "0.1.0"
edition = "2021"
publish = false

[dependencies]
fuzzy-matcher = "0.3"
pulldown-cmark = "*"
pulldown-cmark-to-cmark = "*"
mdbook = { version = "0.4", default-features = false }
prost = "*"
prost-types = "*"
bytes = "*"
anyhow = "*"
clap = "4"
env_logger = "*"
log = "*"
semver = "*"
serde_json = "*"
toml_edit = "*"
