[package]
name = "equinox"
version = "0.1.2"
edition = "2021"
publish = false

[dependencies]
anyhow = "1"
chrono = "0.4"
futures-channel = "0.3"
gdk-pixbuf = "*"
gettext-rs = { version = "0.7", features = ["gettext-system"] }
gio = "*"
glib = "*"
gtk4 = "*"
imagesize = "*"
libadwaita = "*"
libc = "0.2"
log = "0.4"
rand = "0.9"
serde = { version = "1", features = ["derive"] }
serde_json = "1"
sha2 = "0.10"
signal-hook = "0.3"
soup3 = "*"
