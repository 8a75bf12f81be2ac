[package]
name = "wine_trees"
version = "0.1.0"
edition = "2021"
publish = false

[dependencies]
flate2 = "=1.1.10"
linfa = "=0.8.1"
linfa-trees = "=0.8.1"
linfa-preprocessing = "=0.8.1"
ndarray = "=0.16.1"

[dev-dependencies]
csv = "=1.4.0"
rand = "=0.10.3"
