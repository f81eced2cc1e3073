[package]
name = "sluap"
version = "0.1.0"
edition = "2021"
publish = false

[dependencies]
memchr = "*"
unicode-xid = "*"
lexical-core = "*"
