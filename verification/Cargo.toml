[package]
name = "silent_keys"
version = "0.1.0"
edition = "2021"
publish = false

[dependencies]
regex = "1"
rtrb = "0.3"
rubato = "0.16"
num_cpus = "1"
ureq = "3"
dirs-next = "2"
serde = { version = "1", features = ["derive"] }
serde_json = "1"
thiserror = "2"
log = "0.4"
