[package]
name = "tyler"
version = "0.4.1"
edition = "2021"
publish = false

[dependencies]
ahash = "=0.8.12"
anyhow = "=1.0.104"
arrow = "=59.3.2"
bincode = "=1.3.3"
byteorder = "=1.5.0"
cityjson-json = "=0.11.0"
cityjson-lib = "=0.11.0"
clap = { version = "=4.6.7", features = ["derive"] }
earcutr = "=0.3.0"
env_logger = "=0.11.11"
geo-types = "=0.7.20"
geoarrow = "=0.9.0"
geoarrow-array = "=0.9.0"
geoarrow-schema = "=0.9.0"
geoparquet = "=0.9.0"
gltf = { version = "=1.4.1", features = ["extensions", "extras", "names"] }
las = { version = "=0.9.11", features = ["laz"] }
laz = "=0.9.3"
log = "=0.4.35"
parquet = "=59.3.2"
rayon = "=1.12.0"
serde = { version = "=1.0.229", features = ["derive"] }
serde_json = "=1.0.154"
subprocess = "=0.2.15"
tempfile = "=3.27.0"
thiserror = "=1.0.69"
walkdir = "=2.5.0"
