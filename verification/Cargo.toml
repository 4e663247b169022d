[package]
name = "grid_binning"
version = "0.1.0"
edition = "2021"

[dependencies]
hashbrown = "0.15"
rand = "0.8"
rayon = "1"
