[package]
name = "pi_darts"
version = "0.1.0"
edition = "2021"
publish = false

[dependencies]
rand = "*"
egui = "*"
egui_plot = "*"
