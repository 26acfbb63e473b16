[package]
name = "scientific_calculator"
version = "0.1.0"
edition = "2021"
publish = false

[dependencies]
ansi_term = "=0.12.1"
libm = "=0.2.16"
rustyline = "=19.0.0"

[dev-dependencies]
regex = "1"
