[package]
name = "uwuifier"
version = "0.1.0"
edition = "2021"
publish = false

[dependencies]
clap = "*"
owo-colors = "*"
parking_lot = "*"
thiserror = "*"
