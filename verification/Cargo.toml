[package]
name = "craft_dfs"
version = "0.1.0"
edition = "2021"
publish = false

[dependencies]
ffxiv-crafting = "=0.1.3"
dialoguer = "=0.12.0"
