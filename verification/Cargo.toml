[package]
name = "ublox_core"
version = "0.1.0"
edition = "2021"
publish = false

[dependencies]
embedded-hal = "=0.2.7"
nb = "=0.1.3"
rbf = "=0.2.0"
