[package]
name = "mimirsbrunn"
version = "0.1.0"
edition = "2021"
publish = false

[dependencies]
heck = "0.3"
osmpbfreader = "*"
serde = { version = "1", features = ["derive"] }
serde_json = "1"
structopt = "0.3"
failure = "0.1"
slog = "2"
slog-scope = "4"
geo-types = "*"
geojson = "*"
iron = "0.6"
rs-es = "*"
cosmogony = "*"
