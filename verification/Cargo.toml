[package]
name = "particle_life"
version = "0.1.0"
edition = "2021"
publish = false

[dependencies]
fastrand = "2"
macroquad = { version = "0.4", default-features = false }
miniquad = "0.4"
rayon = "1"
