[package]
name = "pricetrack"
version = "0.1.0"
edition = "2021"
publish = false

[dependencies]
serde = { version = "1", features = ["derive"] }
serde-pickle = "*"
serde_path_to_error = "*"
flate2 = "1"
bincode = "1"
rayon = "1"
fuse-rust = "*"
