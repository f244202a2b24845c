[package]
name = "iam-policy-autopilot"
version = "0.1.0"
edition = "2021"
publish = false

[dependencies]
anyhow = "=1.0.104"
ast-grep-config = "=0.51.1"
ast-grep-core = "=0.51.1"
ast-grep-language = "=0.51.1"
async-lsp = { version = "=0.2.4", features = ["tokio"] }
async-trait = "=0.1.92"
convert_case = "=0.8.0"
futures = "=0.3.34"
log = "=0.4.35"
lsp-types = "=0.95.1"
regex = "=1.13.1"
serde = { version = "=1.0.229", features = ["derive"] }
serde_json = "=1.0.154"
tempfile = "=3.27.0"
thiserror = "=2.0.21"
tokio = { version = "=1.54.1", features = ["full"] }
tokio-util = { version = "=0.7.20", features = ["compat"] }
tower = "=0.5.3"
which = "=8.0.6"
