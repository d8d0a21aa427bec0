[package]
name = "shellitem"
version = "0.2.3"
edition = "2021"
publish = false

[dependencies]
forensicnomicon = "1"
