[package]
name = "archivist"
version = "0.1.0"
edition = "2021"

[dependencies]
chrono = "=0.4.45"
icu_normalizer = "=2.3.0"
url = "=2.5.8"

[dev-dependencies]
askama_escape = "=0.10.3"
