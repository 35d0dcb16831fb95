[package]
name = "monadb"
version = "0.1.0"
edition = "2021"
publish = false

[dependencies]
byteorder = "1"
redb = "*"
bson = "*"
pyo3 = "*"
clap = { version = "4", features = ["derive"] }
rustyline = { version = "*", features = ["derive"] }
termcolor = "1"
shlex = "1"
csv = "1"
serde_json = "1"
