[package]
name = "winpinner_rust"
version = "0.1.0"
edition = "2021"
publish = false

[dependencies]
dbus = { version = "=0.9.12", features = ["vendored"] }
dbus-crossroads = "=0.5.3"
dbus-tokio = "=0.7.6"
futures = "=0.3.34"
tokio = { version = "=1.54.1", features = ["full"] }
wmctrl = "=0.1.8"
