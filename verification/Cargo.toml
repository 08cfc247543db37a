[package]
name = "simperby_storage"
version = "0.1.0"
edition = "2021"
publish = false

[dependencies]
git2 = { version = "*", default-features = false }
async-trait = "0.1"
thiserror = "1"
