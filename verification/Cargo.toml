[package]
name = "murmur"
version = "0.1.0"
edition = "2021"
publish = false

[dependencies]
anyhow = "=1.0.104"
clap = { version = "=4.6.7", features = ["derive"] }
cpal = "=0.18.2"
earshot = "=1.2.2"
evdev = "=0.13.2"
futures = "=0.3.34"
hound = "=3.5.1"
ksni = { version = "=0.3.7", default-features = false, features = ["blocking", "async-io"] }
libloading = "=0.8.9"
parakeet-rs = { version = "=0.4.4", default-features = false, features = ["cpu", "load-dynamic"] }
rubato = "=5.0.1"
serde = { version = "=1.0.229", features = ["derive"] }
toml = "=1.1.8"
tracing = "=0.1.44"
tracing-subscriber = { version = "=0.3.23", features = ["env-filter"] }
ureq = { version = "=3.5.1", default-features = false, features = ["rustls"] }
wl-clipboard-rs = "=0.9.5"
