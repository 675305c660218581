[package]
name = "membership"
version = "0.1.0"
edition = "2021"
publish = false

[dependencies]
failure = "0.1"
log = "0.4"
mio = "0.6"
mio-extras = "2.0"
structopt = "0.3"
