[package]
name = "iced_code_editor"
version = "0.1.0"
edition = "2021"
publish = false

[dependencies]
unicode-width = "0.2"
serde_json = "1"
iced = { version = "0.14", features = ["canvas", "advanced"] }
