[package]
name = "inlay"
version = "0.1.0"
edition = "2021"
publish = false

[dependencies]
byteorder = "1"
csv = "1"
glob = "0.3"
log = "0.4"
loggerv = "0.7"
structopt = "0.3"
