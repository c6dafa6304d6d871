[package]
name = "epub"
version = "0.1.0"
edition = "2021"
publish = false

[dependencies]
xml5ever = "=0.39.0"
markup5ever_rcdom = "=0.39.0"
url = "=2.5.8"
zip = "=8.6.0"
