[package]
name = "qalqulator"
version = "0.1.0"
edition = "2021"
publish = false

[dependencies]
anyhow = "1"
directories = "4"
gcd = "2"
rustyline = "10"
