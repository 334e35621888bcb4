[package]
name = "relambda"
version = "0.1.0"
edition = "2021"
publish = false

[dependencies]
unicode_reader = "*"
clap = "2"
log = "0.4"
stderrlog = "*"
