[package]
name = "sheet_shadow_core"
version = "0.1.0"
edition = "2021"
publish = false

[dependencies]
meval = "0.2"
pyo3 = { version = "0.22", features = ["extension-module", "abi3-py38"] }
regex = "1"
roxmltree = "0.20"
rusqlite = { version = "0.32", features = ["bundled", "vtab"] }
zip = { version = "2", default-features = false, features = ["deflate"] }
