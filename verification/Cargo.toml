[package]
name = "recommend"
version = "0.1.0"
edition = "2021"
publish = false

[dependencies]
csv = "=1.4.0"
elapsed = "=0.1.2"
log = "=0.4.34"
nalgebra = "=0.35.0"
plotters = { version = "=0.3.7", default-features = false, features = ["ab_glyph", "bitmap_backend", "bitmap_encoder", "histogram", "point_series"] }
pretty_env_logger = "=0.5.0"
rusty-machine = "=0.5.4"
