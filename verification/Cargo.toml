[package]
name = "buildings_core"
version = "0.1.0"
edition = "2021"
publish = false

[dependencies]
byteorder = "=1.5.0"
meshopt = "=0.7.0"
image-webp = "=0.2.4"
flate2 = "=1.1.10"
serde = { version = "=1.0.229", features = ["derive"] }
serde_json = "=1.0.154"
earcutr = "=0.5.0"
rstar = "=0.14.0"
anyhow = "=1.0.104"
thiserror = "=2.0.21"
bytes = "=1.12.1"
clap = { version = "=4.6.7", features = ["derive"] }
toml = "=1.1.8"
ureq = "=2.12.1"
rayon = "=1.12.0"
tokio = { version = "=1.54.1", features = ["rt"] }
futures = "=0.3.34"
pmtiles = { version = "=0.26.0", features = ["http-async"] }
fcb_core = "=0.7.8"
cjseq2 = "=0.2.0-alpha.1"
wasm-bindgen = "=0.2.130"
console_error_panic_hook = "=0.1.7"
async-trait = "=0.1.92"
