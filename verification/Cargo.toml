[package]
name = "arendal"
version = "0.1.0"
edition = "2021"
publish = false

[dependencies]
num = "=0.4.3"
im = "=15.1.0"
data-encoding = "=2.11.1"
rand = "0.8"
