[package]
name = "carddex"
version = "0.1.0"
edition = "2021"
publish = false

[dependencies]
rusqlite = { version = "=0.40.2", features = ["bundled", "load_extension"] }
hex = "=0.4.3"
sha2 = "=0.11.0"
structopt = "=0.3.26"
color-eyre = "=0.6.5"
promptly = "=0.3.1"
serde = { version = "=1.0.229", features = ["derive"] }
serde_json = "=1.0.151"
rayon = "=1.12.0"
indicatif = { version = "=0.18.6", features = ["rayon"] }
deunicode = "=1.6.2"
