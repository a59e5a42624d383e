[package]
name = "raymarcher"
version = "0.1.0"
edition = "2021"
publish = false

[dependencies]
cgmath = "=0.18.0"
clap = "=2.34.0"
image = "=0.23.14"
minifb = "=0.19.3"
num-complex = "0.4"
rayon = "=1.12.0"
