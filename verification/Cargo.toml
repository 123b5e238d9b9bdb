[package]
name = "untrickystore"
version = "0.1.0"
edition = "2021"
publish = false

[dependencies]
anyhow = "1"
gettext = "0.4"
libc = "0.2"
log = "0.4"
ureq = "2"
