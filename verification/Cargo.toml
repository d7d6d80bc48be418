[package]
name = "p2pspider"
version = "0.1.0"
edition = "2021"
publish = false

[dependencies]
bencode = "0.1"
byteorder = "1"
rand = "0.8"
sha1 = "0.6"
