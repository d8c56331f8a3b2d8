[package]
name = "wad_sprites"
version = "0.1.0"
edition = "2021"
publish = false

[dependencies]
png = "0.17"
anyhow = "1"
atty = "0.2"
camino = "1"
clap = { version = "4", features = ["derive"] }
log = "0.4"
memmap2 = "0.9"
simplelog = "0.12"
