[package]
name = "cidstore"
version = "0.1.0"
edition = "2021"
publish = false

[dependencies]
multihash = { version = "=0.14.0", default-features = false, features = ["std", "multihash-impl", "sha2"] }

[dev-dependencies]
libipld = "=0.12.0"
