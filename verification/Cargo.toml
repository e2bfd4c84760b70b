[package]
name = "page_manager"
version = "0.1.0"
edition = "2021"
publish = false

[dependencies]
memmap2 = "0.5"
page_size = "0.4"
