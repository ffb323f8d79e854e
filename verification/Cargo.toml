[package]
name = "filesystem_watcher"
version = "0.1.0"
edition = "2021"
publish = false

[dependencies]
bstr = "1"
dunce = "1"
futures = "0.3"
ignore = "0.4"
notify = "8"
notify-debouncer-full = "0.5"
thiserror = "2"
tracing = "0.1"
