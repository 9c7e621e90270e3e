[package]
name = "sas_topo_svg"
version = "0.1.0"
edition = "2021"
publish = false

[dependencies]
svg = "0.7"
serde-xml-rs = "0.4"
