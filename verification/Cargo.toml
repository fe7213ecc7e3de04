[package]
name = "dungeoncrawl"
version = "0.1.0"
edition = "2021"
publish = false

[dependencies]
bracket-lib = { version = "0.8", default-features = false, features = ["crossterm"] }
legion = { version = "0.4", default-features = false, features = ["codegen"] }
