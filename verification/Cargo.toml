[package]
name = "jvmrt"
version = "0.1.0"
edition = "2021"
publish = false

[dependencies]
rustc_apfloat = "*"
nix = { version = "=0.29.0", features = ["fs"] }
dirs = "*"
whoami = "*"
