[package]
name = "sv2_conformance"
version = "0.1.0"
edition = "2021"
publish = false

[dependencies]
arbitrary = { version = "1", features = ["derive"] }
binary_sv2 = "*"
bitcoin = "0.32"
channels_sv2 = "*"
codec_sv2 = { version = "*", features = ["noise_sv2"] }
common_messages_sv2 = "*"
framing_sv2 = "*"
libfuzzer-sys = "0.4"
mining_sv2 = "*"
noise_sv2 = "*"
parsers_sv2 = "*"
rand = "0.8"
secp256k1 = { version = "0.28", features = ["rand"] }
serde_json = "1"
template_distribution_sv2 = "*"
