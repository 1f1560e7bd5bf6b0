[package]
name = "flutter_rust_api_translate"
version = "0.1.0"
edition = "2021"
publish = false

[dependencies]
convert_case = "0.6"
syn = { version = "1", features = ["full", "extra-traits"] }
cargo_metadata = "*"
flutter_rust_bridge_codegen = "1"
