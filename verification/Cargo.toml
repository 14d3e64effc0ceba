[package]
name = "toml_sync"
version = "0.1.0"
edition = "2021"
publish = false

[dependencies]
cargo_toml = "=0.22.3"
glob = "=0.3.4"
hyper = { version = "=0.14.32", features = ["client", "http1", "http2", "tcp"] }
hyper-tls = "=0.5.0"
tokio = { version = "=1.53.2", features = ["macros", "rt-multi-thread"] }
dialoguer = "=0.12.0"
prettytable-rs = "=0.10.0"
