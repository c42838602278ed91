[package]
name = "varde"
version = "0.1.0"
edition = "2021"
publish = false

[dependencies]
async-channel = "2"
gdk-pixbuf = "*"
gio = "*"
gtk4 = "*"
gtk4-layer-shell = "*"
libc = "0.2"
nucleo-matcher = "0.3"
serde = { version = "1", features = ["derive"] }
serde_json = "1"
zbus = "5"
