[package]
name = "emphasize"
version = "0.1.0"
edition = "2021"
publish = false

[dependencies]
seahash = "*"
serde_yaml = "*"
serde_json = "*"
r2d2 = "*"
r2d2_sqlite = { version = "*", features = ["bundled"] }
rsass = "*"
notify = "*"
ignore = "*"
