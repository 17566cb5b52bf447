[package]
name = "ishi"
version = "0.1.0"
edition = "2021"
publish = false

[dependencies]
num-bigint = "0.4"
structopt = "0.3"
