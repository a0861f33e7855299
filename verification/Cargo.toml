[package]
name = "vici"
version = "0.1.0"
edition = "2021"
publish = false

[dependencies]
ropey = { version = "=2.0.0-beta.1", features = ["metric_lines_lf"] }
unicode-segmentation = "1"
unicode-width = "0.2"
ratatui = "0.29"
