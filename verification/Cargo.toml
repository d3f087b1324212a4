[package]
name = "crustybots"
version = "0.1.0"
edition = "2021"
publish = false

[dependencies]
im = "*"
lru = "*"
pathfinding = "*"
