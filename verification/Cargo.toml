[package]
name = "rwm"
version = "0.1.0"
edition = "2021"
publish = false

[dependencies]
x11 = { version = "2.21", features = ["xlib", "xinerama"] }
nix = { version = "0.27", features = ["process", "signal"] }
libc = "0.2"
