[package]
name = "bill_unify"
version = "0.1.0"
edition = "2021"
publish = false

[dependencies]
anyhow = "=1.0.104"
calamine = { version = "=0.27.0", features = ["dates"] }
chrono = "=0.4.45"
parking_lot = "=0.12.5"
polars = { version = "=0.45.1", default-features = false, features = ["lazy", "csv", "parquet", "dtype-decimal", "dtype-datetime", "dtype-duration", "strings", "temporal", "abs", "fmt"] }
rayon = "=1.12.0"
tracing = "=0.1.44"
tracing-subscriber = "=0.3.23"
walkdir = "=2.5.0"
