[package]
name = "order_in_yaml_frontmatter"
version = "0.1.0"
edition = "2021"
publish = false

[dependencies]
anyhow = "1"
clap = { version = "4", features = ["derive"] }
frontmatter = "0.4"
tempfile = "3"
termion = "2"
thiserror = "1"
tui = { version = "0.19", default-features = false, features = ["termion"] }
unicode-width = "0.1"
yaml-rust = "0.4"
