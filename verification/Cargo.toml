[package]
name = "retarget_ir"
version = "0.1.0"
edition = "2021"
publish = false

[dependencies]
either = "1"
id-arena = "2"
relooper = "0.1"
syn = { version = "2", features = ["full"] }
waffle = "*"
