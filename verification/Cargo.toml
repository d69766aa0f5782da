[package]
name = "fstwrapper"
version = "0.1.0"
edition = "2021"
publish = false

[dependencies]
fst = "0.3"
fst-levenshtein = "0.2"
fst-regex = "0.2"
libc = "0.2"
