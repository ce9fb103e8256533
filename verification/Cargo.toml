[package]
name = "meikipop"
version = "0.1.0"
edition = "2021"
publish = false

[dependencies]
zip = { version = "=9.2.2", default-features = false, features = ["deflate"] }
unicode-general-category = "=1.1.0"
serde = { version = "1", features = ["derive"] }
serde_json = "1"
ciborium = "0.2"
crossbeam-channel = "0.5"
log = "0.4"
ureq = "3"
image = { version = "=0.25.10", default-features = false }
x11rb = "0.13"
ndarray = "=0.17.2"
tracing = "0.1"
tracing-subscriber = { version = "0.3", features = ["env-filter"] }
fontdb = "=0.24.0"
ashpd = { version = "=0.13.13", default-features = false, features = ["async-io", "global_shortcuts", "screencast"] }
async-io = "2"
futures-util = "0.3"
raw-window-handle = "=0.6.2"
env_logger = "=0.11.11"
ort = { version = "=2.0.0-rc.15", default-features = false, features = ["std", "ndarray", "load-dynamic"] }
pyo3 = { version = "=0.30.1", default-features = false, features = ["macros"] }
pipewire = "=0.10.1"
