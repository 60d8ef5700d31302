[package]
name = "war_sim"
version = "0.1.0"
edition = "2021"
publish = false

[dependencies]
rand = "0.9"
inquire = "0.7"
num_cpus = "1"
