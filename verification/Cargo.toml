[package]
name = "oxi_gen"
version = "0.1.0"
edition = "2021"
publish = false

[dependencies]
regex = "1"
oxigraph = { version = "*", default-features = false }
spareval = "*"
spargebra = "*"
oxrdfio = "*"
csv = "1"
flate2 = "1"
