[package]
name = "rust_style"
version = "0.1.0"
edition = "2021"
publish = false

[dependencies]
syn = { version = "2", features = ["full", "parsing", "visit"] }
proc-macro2 = { version = "1", features = ["span-locations"] }
walkdir = "2"
clap = { version = "4", features = ["derive"] }
serde = { version = "1", features = ["derive"] }
serde_json = "1"
toml_edit = "0.22"
ureq = { version = "2", default-features = false, features = ["json"] }
regex = "1"
