[package]
name = "linewatch"
version = "0.1.0"
edition = "2021"
publish = false

[dependencies]
anyhow = "=1.0.104"
async-trait = "=0.1.92"
axum = "=0.8.9"
clap = { version = "=4.6.7", features = ["derive"] }
figment = { version = "=0.10.19", features = ["toml", "env"] }
futures = "=0.3.34"
genpdf = { version = "=0.2.0", features = ["images"] }
hex = "=0.4.3"
hickory-resolver = "=0.26.3"
opentelemetry = "=0.33.1"
opentelemetry-otlp = { version = "=0.33.1", default-features = false, features = ["http-proto", "metrics", "reqwest-client", "reqwest-rustls"] }
opentelemetry_sdk = "=0.33.1"
plotters = { version = "=0.3.7", default-features = false, features = ["bitmap_backend", "bitmap_encoder", "line_series", "ab_glyph"] }
prometheus = { version = "=0.14.0", default-features = false }
rand = "=0.10.3"
reqwest = { version = "=0.12.28", default-features = false, features = ["json", "rustls-tls"] }
serde = { version = "=1.0.229", features = ["derive"] }
serde_json = { version = "=1.0.154", features = ["preserve_order", "float_roundtrip", "raw_value"] }
sha2 = "=0.10.9"
socket2 = { version = "=0.6.5", features = ["all"] }
surge-ping = "=0.9.1"
time = { version = "=0.3.55", features = ["formatting", "parsing", "serde"] }
tokio = { version = "=1.54.1", features = ["rt-multi-thread", "macros", "net", "time", "signal", "sync", "fs"] }
