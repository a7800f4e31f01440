[package]
name = "swifft_image_hash"
version = "0.1.0"
edition = "2021"
publish = false

[dependencies]
swifft = "*"
console_error_panic_hook = "*"
