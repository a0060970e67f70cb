[package]
name = "schema-language"
version = "0.1.0"
edition = "2021"
publish = false

[dependencies]
blake3 = "*"
nota = "*"
rkyv = "*"
thiserror = "*"
