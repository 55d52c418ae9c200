[package]
name = "lmdb_storage"
version = "0.1.0"
edition = "2021"
publish = false

[dependencies]
heed = "=0.11.0"
gluesql-core = "*"
async-trait = "*"
async-io = "*"

[dev-dependencies]
tempfile = "*"
