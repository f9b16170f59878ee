[package]
name = "turing_display"
version = "0.1.0"
edition = "2021"
publish = false

[dependencies]
rusttype = "=0.9.3"
owned_ttf_parser = "=0.15.2"
clap = { version = "=4.6.7", features = ["derive"] }
lodepng = "=3.12.2"
log = "=0.4.34"
rand = "=0.8.8"
simple_logger = "=5.2.0"
