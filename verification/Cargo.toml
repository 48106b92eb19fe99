[package]
name = "stoat_client"
version = "0.1.0"
edition = "2021"
publish = false

[dependencies]
chumsky = "=0.13.0"
regex = "=1.13.1"
ulid = "=3.0.0"
indexmap = "=2.14.2"
rand = "=0.10.3"
jiff = "=0.2.39"
infer = "=0.22.0"
rfd = { version = "=0.17.2", default-features = false, features = ["xdg-portal"] }
