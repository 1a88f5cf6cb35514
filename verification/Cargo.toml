[package]
name = "xfce4-niri"
version = "0.1.0"
edition = "2021"
publish = false

[dependencies]
osal-rs = { version = "=1.4.0", features = ["posix"] }
osal-rs-serde = { version = "=1.4.0", features = ["derive"] }
glib = "=0.18.5"
gtk = "=0.18.2"
dbus = { version = "=0.9.12", features = ["vendored"] }
