[package]
name = "thriftrs2"
version = "0.1.0"
edition = "2021"
publish = false

[dependencies]
byteorder = "=1.5.0"
base64 = "=0.22.1"
serde_json = "=1.0.154"
thiserror = "=2.0.21"
pyo3 = "=0.30.1"
nom = "=8.0.0"
num_cpus = "1"
