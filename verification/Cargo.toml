[package]
name = "diff3"
version = "0.1.0"
edition = "2021"
publish = false

[dependencies]
diff = "0.1"
