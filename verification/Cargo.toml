[package]
name = "afrim_engine"
version = "0.1.0"
edition = "2021"
publish = false

[dependencies]
afrim-config = "=0.4.8"
afrim-preprocessor = "=0.7.0"
afrim-translator = "=0.2.3"
indexmap = "=2.14.2"
pyo3 = "=0.29.3"
pythonize = "=0.29.0"
rhai = "=1.27.0"
serde_json = "=1.0.154"
