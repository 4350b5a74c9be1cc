[package]
name = "display_as"
version = "0.1.0"
edition = "2021"
publish = false

[dependencies]
mime = "0.3"
proc-macro2 = "1"
glob = "0.3"
serde = { version = "1", features = ["derive"] }
