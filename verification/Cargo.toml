[package]
name = "truth_table"
version = "0.1.0"
edition = "2021"
publish = false

[dependencies]
cas-compute = "=0.2.0"
cas-error = "=0.2.0"
cas-parser = "=0.2.0"
