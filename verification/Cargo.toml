[package]
name = "linegrep"
version = "0.1.0"
edition = "2021"
publish = false

[dependencies]
anyhow = "1"
bstr = "1"
encoding_rs = "0.8"
encoding_rs_io = "0.1"
lexopt = "0.3"
memchr = "2"
regex-automata = "0.4"
regex-syntax = "0.8"
termcolor = "1"
walkdir = "2"

[dev-dependencies]
regex = "1"
