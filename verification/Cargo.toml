[package]
name = "refstore"
version = "0.1.0"
edition = "2021"
publish = false

[dependencies]
git-features = { version = "=0.26.5", features = ["walkdir"] }
serde = { version = "=1.0.229", features = ["derive"] }
symlink = "=0.1.0"
