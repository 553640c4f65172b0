[package]
name = "ramdisk"
version = "0.1.0"
edition = "2021"
publish = false

[dependencies]
structopt = "=0.3.26"
sys-mount = { version = "=2.1.1", default-features = false }
