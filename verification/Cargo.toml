[package]
name = "interpro_filter"
version = "0.1.0"
edition = "2021"
publish = false

[dependencies]
flate2 = "1"
log = "0.4"
pretty_env_logger = "*"
structopt = "0.3"
