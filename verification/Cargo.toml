[package]
name = "wayland_http"
version = "0.1.0"
edition = "2021"
publish = false

[dependencies]
actix = "=0.13.5"
actix-web = { version = "=4.18.1", default-features = false, features = ["macros", "ws"] }
actix-web-actors = "=4.3.1"
failure = "=0.1.8"
futures = "=0.3.34"
libc = "=0.2.191"
serde = { version = "=1.0.229", features = ["derive"] }
serde_json = "=1.0.154"
slog = "=2.8.2"
slog-async = "=2.8.0"
slog-scope = "=4.4.1"
slog-term = "=2.9.2"
smithay = { version = "=0.7.0", default-features = false, features = ["wayland_frontend"] }
sugar = "=0.2.0"
time = "=0.1.45"
wayland-protocols = { version = "=0.32.13", features = ["server"] }
wayland-server = "=0.31.14"
