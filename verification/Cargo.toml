[package]
name = "gomokugen"
version = "0.1.0"
edition = "2021"
publish = false

[dependencies]
smallvec = { version = "1.13", features = ["const_generics"] }
