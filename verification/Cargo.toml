[package]
name = "coolercontrold"
version = "0.1.0"
edition = "2021"
publish = false

[dependencies]
heck = "*"
pciid-parser = "*"

[dev-dependencies]
yata = "*"
