[package]
name = "rread_lst"
version = "0.1.0"
edition = "2021"
publish = false

[dependencies]
bitreader = "0.3"
byteorder = "1"
rayon = "1"
filebuffer = "*"
libc = "0.2"
