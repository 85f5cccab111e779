[package]
name = "hfm_filter"
version = "0.1.0"
edition = "2021"
publish = false

[dependencies]
anyhow = "=1.0.104"
thiserror = "=2.0.21"
crossbeam-channel = "=0.5.17"
parking_lot = "=0.13.0"
tokenizers = "=0.23.2"
fast_image_resize = "=6.1.0"
flate2 = "1"
tar = "0.4"
walkdir = "2"
zip = { version = "*", default-features = false, features = ["deflate"] }

[dev-dependencies]
tempfile = "=3.27.0"
