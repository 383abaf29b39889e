[package]
name = "bootc"
version = "1.11.0"
edition = "2021"
publish = false

[dependencies]
anstream = "0.6"
anyhow = "=1.0.104"
camino = "=1.2.6"
cap-std-ext = "=4.0.7"
chrono = { version = "=0.4.45", default-features = false, features = ["std", "clock"] }
clap = { version = "=4.6.7", features = ["derive"] }
composefs = "0.7"
composefs-boot = "0.7"
composefs-oci = "0.7"
fn-error-context = "0.2"
hex = "=0.4.3"
indoc = "2"
libc = "0.2"
libtest-mimic = "0.8"
openssl = "=0.10.82"
owo-colors = { version = "4", features = ["supports-colors"] }
rand = "=0.9.5"
rustix = { version = "1", features = ["fs", "mount", "process", "thread"] }
schemars = "1"
scopeguard = "1"
serde = { version = "1", features = ["derive"] }
serde_json = "=1.0.154"
serde_yaml = "=0.9.34"
tempfile = "3"
tini = "=1.3.0"
toml = "=0.9.12"
tracing = "0.1"
xshell = "0.2"
