[package]
name = "ronin"
version = "0.1.0"
edition = "2021"
publish = false

[dependencies]
atomicwrites = "*"
egui = "*"
