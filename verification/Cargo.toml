[package]
name = "lv2hm"
version = "0.1.0"
edition = "2021"
publish = false

[dependencies]
lilv-sys = "=0.2.1"
lv2_raw = "=0.2.0"
lv2-urid = "=2.1.0"
urid = "=0.1.0"
