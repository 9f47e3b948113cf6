[package]
name = "tictactoe"
version = "0.1.0"
edition = "2021"
publish = false

[dependencies]
actix-cors = "*"
actix-web = "*"
rand = "*"
serde = { version = "*", features = ["derive"] }
uuid = { version = "*", features = ["v4"] }
