[package]
name = "robot_colony"
version = "0.1.0"
edition = "2021"
publish = false

[dependencies]
rand = "0.8"
parking_lot = "0.12"
noise = "0.8"
rayon = "1"
colored = "2"
