[package]
name = "block_mesh_pop"
version = "0.1.0"
edition = "2021"
publish = false

[dependencies]
bevy_math = "0.11"
