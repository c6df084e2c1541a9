[package]
name = "dnsrivet"
version = "0.1.0"
edition = "2021"
publish = false

[dependencies]
hickory-proto = { version = "=0.25.2", default-features = false, features = ["std", "tokio", "tls-ring", "https-ring", "quic-ring", "h3-ring"] }
lexopt = "0.3"
libc = "0.2"
log = { version = "0.4", features = ["std"] }
lru = "*"
rustls = { version = "0.23", default-features = false, features = ["ring", "std", "tls12"] }
serde = { version = "1", features = ["derive"] }
tokio = { version = "1", features = ["rt", "net", "io-util", "time", "sync", "macros", "signal"] }
toml = "*"
webpki-roots = "*"
