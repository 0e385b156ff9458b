[package]
name = "ferricast"
version = "0.1.0"
edition = "2021"
publish = false
rust-version = "1.95"

[dependencies]
anyhow = "1"
ashpd = "0.12"
async-channel = "2"
gettext-rs = "0.7"
gifski = { version = "=1.34.0", default-features = false, features = ["png"] }
gio = "0.21"
glib = "0.21"
gstreamer = "0.24"
gstreamer-app = "0.24"
gstreamer-controller = "0.24"
gstreamer-editing-services = "0.24"
gstreamer-video = "0.24"
gtk4 = "0.10"
image = { version = "=0.25.10", default-features = false, features = ["png"] }
# not used here: later versions, which gstreamer would pick, need a newer compiler
kstring = "=2.0.2"
libadwaita = { version = "0.8", features = ["v1_5"] }
pipewire = "0.9"
tokio = { version = "1", features = ["rt-multi-thread"] }
tracing = "0.1"
tracing-subscriber = "0.3"
xattr = "1"
