[package]
name = "paint_cat"
version = "0.1.0"
edition = "2021"
publish = false

[dependencies]
dom-cat = "*"
layout-cat = "*"

[dev-dependencies]
html-cat = "*"
css-cat = "*"
