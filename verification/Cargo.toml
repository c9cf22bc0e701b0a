[package]
name = "io_lang"
version = "0.1.0"
edition = "2021"
publish = false

[dependencies]
regex = "=1.13.1"
semver = "=1.0.28"
sha2 = "=0.10.9"
petgraph = "=0.6.5"
serde = { version = "=1.0.229", features = ["derive"] }
serde_json = "=1.0.154"
colored = "=2.2.0"
clap = { version = "=4.6.7", features = ["derive"] }
tokio = { version = "=1.54.1", features = ["full"] }
futures = "=0.3.34"
reqwest = { version = "=0.11.27", default-features = false, features = ["json"] }
tar = "=0.4.46"
flate2 = "=1.1.10"
tempfile = "=3.27.0"
dirs = "=5.0.1"
rayon = "=1.12.0"
log = "=0.4.35"
parking_lot = "=0.12.5"
tower-lsp = "=0.20.0"
inkwell = { version = "=0.4.0", features = ["llvm14-0-prefer-dynamic"] }
