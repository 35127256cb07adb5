[package]
name = "wldash"
version = "0.1.0"
edition = "2021"
publish = false

[dependencies]
chrono = "=0.4.45"
nix = { version = "=0.26.4", default-features = false, features = ["poll"] }
os_pipe = "=1.2.3"
smithay-client-toolkit = "=0.6.6"
wayland-client = { version = "=0.23.6", features = ["dlopen"] }
wayland-protocols = { version = "=0.23.6", features = ["client", "unstable_protocols"] }
