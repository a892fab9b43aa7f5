[package]
name = "changelog_gen"
version = "0.1.0"
edition = "2021"
publish = false

[dependencies]
crossbeam = "*"
git2 = { version = "*", default-features = false }
num_cpus = "*"
