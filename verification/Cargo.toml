[package]
name = "desktop_switcher"
version = "0.1.0"
edition = "2021"
publish = false

[dependencies]
anyhow = "1"
clap = { version = "4", default-features = false, features = ["std", "derive", "help", "usage", "error-context"] }
directories = "5"
ksni = { version = "0.3", default-features = false, features = ["async-io", "blocking"] }
serde = { version = "1", features = ["derive"] }
thiserror = "1"
time = { version = "0.3", features = ["formatting"] }
toml = "0.8"
zbus = "5"
