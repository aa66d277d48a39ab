[package]
name = "archinstall_zfs"
version = "0.1.0"
edition = "2021"
publish = false

[dependencies]
sha2 = "0.10"
hex = "0.4"
sublime_fuzzy = "*"
zxcvbn = "3"
serde = { version = "1", features = ["derive"] }
serde_json = "1"
serde_yaml_ng = "*"
