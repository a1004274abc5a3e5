[package]
name = "histofit"
version = "0.1.0"
edition = "2021"
publish = false

[dependencies]
egui = "=0.37.0"
egui_plot = "=0.38.0"
egui_tiles = "=0.18.0"
log = "=0.4.34"
polars = { version = "=0.55.2", default-features = false, features = ["lazy", "parquet"] }
rfd = { version = "=0.17.2", default-features = false, features = ["xdg-portal"] }
serde = { version = "=1.0.229", features = ["derive"] }
serde_json = "=1.0.154"
