[package]
name = "bing_dict"
version = "0.1.0"
edition = "2021"
publish = false

[dependencies]
html-escape = "0.2"
subslice = "0.2"
reqwest = "0.12"
thiserror = "1"
