[package]
name = "graphite_plot"
version = "0.1.0"
edition = "2021"
publish = false

[dependencies]
cgmath = "0.18"
instant = "0.1"
rand = "0.9"
winit = "0.30"
