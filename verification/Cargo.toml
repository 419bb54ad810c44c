[package]
name = "remsol"
version = "0.1.0"
edition = "2021"
publish = false

[dependencies]
clap = { version = "4", features = ["derive"] }
cumsum = "*"
find_peaks = "*"
iter_num_tools = "*"
itertools = "*"
log = "0.4"
num-complex = "0.4"
pyo3 = { version = "0.22", features = ["num-complex"] }
pyo3-log = "*"
serde = { version = "1", features = ["derive"] }
toml = "*"
