[package]
name = "mahjong-analytics"
version = "0.1.0"
edition = "2021"
publish = false

[dependencies]
anyhow = "1"
clap = { version = "4", features = ["derive"] }
egui = { version = "0.31", default-features = false, features = ["default_fonts"] }
flate2 = "1"
image = { version = "0.25", default-features = false, features = ["png"] }
polars = { version = "0.49", default-features = false, features = ["lazy", "parquet", "dtype-i8", "fmt"] }
quick-xml = "0.37"
rayon = "1"
rusqlite = "0.32"
