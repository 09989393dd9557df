[package]
name = "admin_gluster"
version = "0.1.0"
edition = "2021"
publish = false

[dependencies]
clap = "=2.34.0"
gluster = "=0.6.10"
influent = "=0.5.3"
log = "=0.4.34"
reqwest = { version = "=0.11.27", default-features = false, features = ["blocking"] }
serde = "=1.0.229"
serde_derive = "=1.0.229"
serde_yaml = "=0.8.26"
simple_logger = "=1.16.0"
time = "=0.1.45"
