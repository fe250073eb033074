[package]
name = "cachybridge"
version = "0.4.0"
edition = "2021"
publish = false

[dependencies]
evdev = "0.12"
hex = "0.4"
rand = "0.8"
snow = "0.9"
thiserror = "1"
zbus = "4"
