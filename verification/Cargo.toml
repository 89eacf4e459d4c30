[package]
name = "rivets"
version = "0.1.0"
edition = "2021"
publish = false

[dependencies]
undname = "*"
cpp_demangle = "*"
pdb = "*"
dirs = "*"
tracing = "*"
tracing-subscriber = "*"
