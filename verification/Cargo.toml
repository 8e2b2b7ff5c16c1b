[package]
name = "mbshark2"
version = "0.1.0"
edition = "2021"
publish = false

[dependencies]
chrono = "0.4"
eframe = { version = "*", default-features = false, features = ["default_fonts", "glow", "x11"] }
egui = "*"
rfd = { version = "*", default-features = false, features = ["xdg-portal"] }
serde = { version = "1", features = ["derive"] }
tokio = { version = "1", features = ["rt", "sync", "time", "macros", "io-util"] }
tokio-serial = { version = "5", default-features = false }
toml = "*"
