[package]
name = "phonoscule"
version = "0.1.0"
edition = "2021"
publish = false

[dependencies]
ogg = "=0.9.2"
opuscule = "=0.2.2"
utf8-decode = "=2.0.0"
toml_edit = "=0.25.17+spec-1.1.0"
url = "=2.5.8"
shellexpand = "=3.1.2"
serde = { version = "=1.0.229", features = ["derive"] }
serde_json = "=1.0.154"
anyhow = "=1.0.104"
log = "=0.4.35"
clap = { version = "=4.6.7", default-features = false, features = ["std", "help", "usage", "error-context"] }
crossterm = { version = "=0.29.0", default-features = false, features = ["events", "event-stream"] }
smol = "=2.0.2"
futures = "=0.3.34"
image = { version = "=0.25.10", default-features = false, features = ["jpeg", "png"] }
iced = { version = "=0.14.0", default-features = false, features = ["wgpu-bare", "image-without-codecs", "advanced", "smol", "web-colors", "x11"] }
glam = "=0.34.2"
bytemuck = { version = "=1.25.2", features = ["derive"] }
bytes = "=1.12.1"
zbus = { version = "=5.19.0", default-features = false, features = ["async-io"] }
notify = "=8.2.1"
pulse-simple = "=1.0.1"
libpulse-binding = "*"
wgpu = { version = "=27.0.1", default-features = false, features = ["vulkan"] }
