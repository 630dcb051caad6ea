[package]
name = "wasmldr"
version = "0.1.0"
edition = "2021"
publish = false

[dependencies]
leb128 = "=0.2.7"
tar = { version = "=0.4.46", default-features = false }
wasmparser = "=0.71.0"
anyhow = "=1.0.104"
async-trait = "0.1"
clap = "=2.34.0"
env_logger = "=0.8.4"
log = "=0.4.34"
serde = { version = "=1.0.229", features = ["derive"] }
serde_yaml = "=0.8.26"
structopt = "=0.3.26"
tempfile = "=3.27.0"
wasi-common = "13"
wasmtime = "13"
wasmtime-wasi = "13"
