[package]
name = "bridge"
version = "0.1.0"
edition = "2021"
publish = false

[dependencies]
glib = "*"
gio = "*"
gtk4 = "*"
libadwaita = "*"
pipewire = "*"
async-channel = "*"
