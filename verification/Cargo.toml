[package]
name = "airscreen"
version = "0.1.0"
edition = "2021"
publish = false

[dependencies]
async-trait = "=0.1.92"
ashpd = { version = "=0.13.13", features = ["screencast"] }
clap = { version = "=4.6.7", features = ["derive"] }
color-eyre = "=0.6.5"
crossbeam-channel = "=0.5.17"
image = { version = "=0.25.10", default-features = false }
openh264 = "=0.9.9"
pipewire = "0.9"
quiche = "*"
quinn = "=0.11.12"
rand = "=0.9.5"
rayon = "=1.12.0"
rcgen = "=0.14.10"
rustls = { version = "=0.23.46", default-features = false, features = ["ring", "std", "logging", "tls12"] }
tokio = { version = "=1.54.1", features = ["full"] }
tracing = "=0.1.44"
tracing-subscriber = "=0.3.23"
turbojpeg = { version = "=1.5.1", features = ["image"] }
windows-capture = "*"
