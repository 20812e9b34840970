[package]
name = "sfmde"
version = "0.1.0"
edition = "2021"
publish = false

[dependencies]
pulldown-cmark = "0.11"
serde = { version = "1", features = ["derive"] }
toml = "0.8"
anyhow = "1"
directories = "5"
glib = "0.20"
gio = "0.20"
gtk4 = "0.9"
libadwaita = { version = "0.7", features = ["v1_5"] }
sourceview5 = "0.9"
webkit6 = "0.4"

[dev-dependencies]
regex = "1"
