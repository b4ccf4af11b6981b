[package]
name = "rustcc"
version = "0.1.0"
edition = "2021"
publish = false

[dependencies]
cxx = "*"
lalr = "*"
regex = "*"
relex = "*"
