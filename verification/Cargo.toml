[package]
name = "sjq"
version = "0.1.0"
edition = "2021"
publish = false

[dependencies]
regex = "=1.13.1"
unicode-normalization = "=0.1.25"
structopt = "=0.3.26"
rustc_apfloat = "=0.2.3+llvm-462a31f5a5ab"
