[package]
name = "mdprint"
version = "0.2.1"
edition = "2021"
publish = false

[dependencies]
anyhow = "*"
base64 = "*"
blake3 = "*"
clap = { version = "*", features = ["derive"] }
comrak = { version = "*", default-features = false }
deunicode = "*"
fancy-regex = "*"
hyphenation = { version = "*", features = ["embed_all"] }
katex-rs = "*"
minijinja = "*"
percent-encoding = "*"
serde = { version = "*", features = ["derive"] }
serde_json = "*"
serde_yaml = "*"
syntect = { version = "*", default-features = false, features = ["default-fancy"] }
thiserror = "*"
toml = "*"
ureq = "*"
