[package]
name = "object_store_wrappers"
version = "0.1.0"
edition = "2021"
publish = false

[dependencies]
async-trait = "0.1"
bytes = "1"
futures = "0.3"
lance-io = { version = "=7.1.0", default-features = false }
object_store = { version = "=0.13.2", default-features = false }
