[package]
name = "git-ents"
version = "0.1.0"
edition = "2021"
publish = false

[dependencies]
arborium = { version = "=2.18.2", default-features = false, features = ["lang-rust", "lang-toml", "lang-json"] }
axum = { version = "=0.8.9", features = ["ws"] }
crossterm = "=0.29.0"
facet = "=0.46.5"
figue = "=4.0.5"
form_urlencoded = "=1.2.2"
futures-util = "=0.3.34"
getrandom = "=0.4.3"
gix-date = "=0.18.1"
gix-hash = { version = "=0.28.1", features = ["sha1"] }
gix-object = "=0.66.1"
iddqd = "=0.5.0"
inquire = "=0.9.4"
maud = "=0.27.0"
portable-pty = "=0.9.0"
pulldown-cmark = "=0.13.6"
serde = { version = "=1.0.229", features = ["derive"] }
serde_json = "=1.0.154"
ssh-key = { version = "=0.6.7", features = ["ed25519"] }
tempfile = "=3.27.0"
thiserror = "=2.0.21"
tokio = { version = "=1.54.1", features = ["full"] }
tokio-tungstenite = "=0.30.0"
ureq = "=3.5.1"
uuid = { version = "=1.29.0", features = ["v4"] }
