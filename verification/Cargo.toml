[package]
name = "veshader"
version = "0.1.0"
edition = "2021"
publish = false

[dependencies]
shaderc = "*"
glob = "*"
log = "*"
env_logger = "*"
structopt = "*"
thiserror = "*"
