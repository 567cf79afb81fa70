[package]
name = "crayne_lang"
version = "0.1.0"
edition = "2021"

[dependencies]
bytecount = "0.6"
memchr = "2"
nom = { version = "5.1", default-features = false, features = ["std"] }
