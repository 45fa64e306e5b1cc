[package]
name = "gluon"
version = "0.1.0"
edition = "2021"
publish = false

[dependencies]
pretty = "=0.5.2"
rpds = "=0.6.0"
anymap = "=0.12.1"
walkdir = "=2.5.0"
structopt = "=0.2.18"
codespan = "=0.2.1"
codespan-reporting = "=0.2.1"
env_logger = "=0.6.2"
