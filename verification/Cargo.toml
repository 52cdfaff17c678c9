[package]
name = "lvl_core"
version = "0.1.0"
edition = "2021"
publish = false

[dependencies]
bitvec = "1"
string-interner = "*"
thiserror = "*"
wgpu = "*"
