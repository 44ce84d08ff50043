[package]
name = "metricus"
version = "0.1.0"
edition = "2021"
publish = false

[dependencies]
rtrb = "*"
hdrhistogram = { version = "*", default-features = false }
quanta = "*"
serde = { version = "*", features = ["derive"] }
serde_yaml = "*"
duration-str = "*"
log = "*"
core_affinity = "*"
thiserror = "*"
dtoa = "*"

[dev-dependencies]
serde_json = "*"
