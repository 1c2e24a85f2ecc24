[package]
name = "rsword-layout-core"
version = "0.1.0"
edition = "2021"
publish = false

[dependencies]
rustybuzz = "0.20"
skrifa = "*"
zeno = "0.3"
serde_json = "1"
