[package]
name = "hekla"
version = "0.1.0"
edition = "2021"
publish = false

[dependencies]
anyhow = "1"
base64 = "=0.22.1"
getrandom = "0.3"
heklang = "=0.12.0"
lsp-types = "*"
metrics = "=0.24.6"
metrics-exporter-prometheus = { version = "=0.18.3", default-features = false }
proptest = "1"
rusqlite = { version = "=0.41.1", features = ["bundled"] }
serde_json = "=1.0.154"
sha2 = "=0.11.1"
starlark = "*"
starlark_lsp = "*"
tempfile = "3"
tephra = "=0.4.1"
time = { version = "0.3", features = ["formatting"] }
tracing = "0.1"

[dev-dependencies]
oas3 = "=0.22.0"
