[package]
name = "verbose"
version = "0.1.0"
edition = "2021"
publish = false

[dependencies]
byteorder = "=1.5.0"
id3 = "=1.17.2"
dsf = "=0.2.2"
