[package]
name = "frostbuild"
version = "0.1.0"
edition = "2021"
publish = false

[dependencies]
anyhow = "1"
base64 = "0.22"
blake3 = "1"
clap = { version = "4", features = ["derive"] }
clap_complete = { version = "4", features = ["unstable-dynamic"] }
clap_complete_nushell = "4"
crossterm = "*"
glob = "0.3"
ignore = "0.4"
libc = "0.2"
memmap2 = "0.9"
notify = "*"
postcard = { version = "1", features = ["use-std"] }
quick-xml = { version = "*", features = ["serialize"] }
rayon = "1"
serde = { version = "1", features = ["derive"] }
serde_json = "1"
sha2 = "0.10"
toml = "*"
zip = { version = "*", default-features = false, features = ["deflate"] }
zstd = "0.13"
