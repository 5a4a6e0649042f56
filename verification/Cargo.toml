[package]
name = "draw_guess"
version = "0.1.0"
edition = "2021"
publish = false

[dependencies]
actix = "*"
actix-cors = "*"
actix-web = "*"
chrono = "*"
rand = "*"
serde = { version = "*", features = ["derive"] }
serde_json = "*"
unicode-segmentation = "*"
uuid = { version = "*", features = ["v4"] }
