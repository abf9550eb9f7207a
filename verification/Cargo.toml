[package]
name = "veldspar"
version = "0.1.0"
edition = "2021"
publish = false

[dependencies]
bincode = "=1.3.3"
zstd = "=0.13.4"
lz4_flex = "=0.11.6"
rayon = "=1.12.0"
ctrlc = "=3.5.2"
tracing = "=0.1.44"
tracing-subscriber = "=0.3.23"
renet = "=1.2.0"
glam = "*"
