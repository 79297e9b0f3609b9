[package]
name = "tk"
version = "0.1.0"
edition = "2021"
publish = false

[dependencies]
chrono = { version = "0.4", default-features = false, features = ["std", "clock"] }
rusqlite = { version = "*", features = ["bundled"] }
clap = { version = "4", features = ["derive"] }
anyhow = "1"
thiserror = "*"
serde = { version = "1", features = ["derive"] }
toml = "*"
directories = "*"
tuirealm = "*"
tui-realm-stdlib = "*"

[dev-dependencies]
