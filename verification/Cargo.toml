[package]
name = "check_broken_packages"
version = "0.1.0"
edition = "2021"
publish = false

[dependencies]
ansi_term = "*"
crossbeam = "*"
glob = "*"
indicatif = "*"
log = "*"
num_cpus = "*"
simple_logger = "*"
