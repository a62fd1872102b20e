[package]
name = "alyze"
version = "0.1.0"
edition = "2021"
publish = false

[dependencies]
icu_properties = { version = "=2.1.2", default-features = false, features = ["compiled_data"] }

[dev-dependencies]
unicode-segmentation = "=1.13.3"
