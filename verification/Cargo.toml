[package]
name = "music_player"
version = "0.1.0"
edition = "2021"
publish = false

[dependencies]
rand = "0.8"
lofty = "0.21"
egui = "0.27"
