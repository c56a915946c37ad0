[package]
name = "schemask"
version = "0.1.0"
edition = "2021"
publish = false

[dependencies]
serde = { version = "=1.0.229", features = ["derive"] }
serde_json = "=1.0.154"
genemichaels-lib = "=0.12.0"
aargvark = { version = "=0.13.0", features = ["serde_json"] }
loga = "=0.5.5"
flowcontrol = "=0.2.3"
