[package]
name = "diskr"
version = "0.1.63"
edition = "2021"
publish = false

[dependencies]
anyhow = "1"
crossterm = "*"
libc = "0.2"
plist = "*"
ratatui-core = "*"
ratatui-widgets = "*"
rayon = "1"
serde_json = "1"
