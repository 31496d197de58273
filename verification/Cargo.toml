[package]
name = "termart"
version = "0.1.0"
edition = "2021"
publish = false

[dependencies]
crossterm = "*"
image = "*"
imageproc = "*"
palette = "*"
simple_clustering = "*"
