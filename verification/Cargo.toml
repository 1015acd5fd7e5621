[package]
name = "srcbundler"
version = "0.1.0"
edition = "2021"
publish = false

[dependencies]
minifier = "0.3"
walkdir = "2"
clap = "4"
colored = "2"
serde = { version = "1", features = ["derive"] }
serde_json = "1"
directories = "5"
ctrlc = "3"
arboard = { version = "3", default-features = false }
