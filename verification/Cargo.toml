[package]
name = "stickyimmix"
version = "0.1.0"
edition = "2021"
publish = false

[dependencies]
clap = "2.33"
dirs = "4"
fnv = "1.0"
itertools = "0.10"
rustyline = "9"
