[package]
name = "rezdir"
version = "0.1.0"
edition = "2021"
publish = false

[dependencies]
clap = { version = "=4.6.7", features = ["derive"] }
regex = "=1.13.1"
smallvec = { version = "=1.16.2", features = ["const_generics"] }
