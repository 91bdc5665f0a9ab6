[package]
name = "simple_csv_reader"
version = "0.1.0"
edition = "2021"
publish = false

[dependencies]
iced = { version = "=0.10.0", default-features = false, features = ["advanced"] }
unicode-segmentation = "=1.13.3"
