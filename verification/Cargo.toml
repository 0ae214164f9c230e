[package]
name = "sql_bulk_import_profile"
version = "0.1.0"
edition = "2021"
publish = false

[dependencies]
petgraph = "*"
csv-core = "*"
rust_decimal = "*"
indexmap = "*"
rustc-hash = "*"
memchr = "*"
arrayvec = "*"
itertools = "*"
quick-xml = { version = "*", features = ["async-tokio"] }
tokio = { version = "1", features = ["fs", "io-util", "net", "rt", "macros"] }
tokio-util = { version = "*", features = ["compat"] }
futures = "*"
tiberius = { version = "*", features = ["rust_decimal"] }
serde = { version = "1", features = ["derive"] }
serde_json = "1"
schemars = "*"
clap = { version = "4", features = ["derive", "env"] }
log = "*"
simplelog = "*"
color-eyre = "*"
rhai = "*"
