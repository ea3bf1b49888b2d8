[package]
name = "playbridge"
version = "0.1.0"
edition = "2021"
publish = false

[dependencies]
chrono = "0.4"
fast_image_resize = "5"
image = { version = "0.25", default-features = false, features = ["png"] }
imageproc = { version = "0.25", default-features = false }
open = "5"
regex = "1"
serde_json = "1"
spin_sleep = "1"
ureq = { version = "3", features = ["json"] }
winreg = "0.55"
