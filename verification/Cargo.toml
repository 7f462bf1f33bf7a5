[package]
name = "xpress_core"
version = "0.4.0"
edition = "2021"
publish = false

[dependencies]
crc32fast = "=1.5.4"
regex = "=1.13.1"
serde = { version = "=1.0.229", features = ["derive"] }
serde_json = "=1.0.154"
thiserror = "=2.0.21"
tempfile = "=3.27.0"
walkdir = "=2.5.0"
which = "=7.0.3"
xattr = "=1.7.0"
clap = { version = "=4.6.7", features = ["derive"] }
anyhow = "=1.0.104"
num_cpus = "=1.17.0"
rayon = "=1.12.0"
imagesize = "=0.13.0"
image = { version = "=0.25.10", default-features = false, features = ["png", "jpeg", "gif", "webp", "bmp", "tiff"] }
lopdf = "=0.45.0"
notify = "=8.2.1"
ctrlc = "=3.5.2"
ureq = "2"
clap_complete = "4"
clap_mangen = "*"
