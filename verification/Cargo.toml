[package]
name = "rusty_roguelike"
version = "0.1.0"
edition = "2021"
publish = false

[dependencies]
rand = "0.8"
rand_core = "0.6"
rltk = "0.8"
