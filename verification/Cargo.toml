[package]
name = "inventory_barcode"
version = "0.1.0"
edition = "2021"
publish = false

[dependencies]
barcoders = { version = "*", features = ["image", "json", "svg"] }
image = { version = "*", default-features = false, features = ["png"] }
imageproc = "*"
ab_glyph = "*"
serde = { version = "*", features = ["derive"] }
serde_json = "*"
anyhow = "*"
log = "*"
tokio = { version = "*", features = ["fs", "io-util", "rt"] }
dotenv = "*"
envy = "*"

[dev-dependencies]
regex = "*"
