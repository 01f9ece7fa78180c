[package]
name = "parquet_types"
version = "0.1.0"
edition = "2021"
publish = false

[dependencies]
arrow-schema = "*"
bytes = "1"
half = "2"
simdutf8 = "0.1"
