[package]
name = "check24_ultimate_tic_tac_toe_judge"
version = "0.1.0"
edition = "2021"
publish = false

[dependencies]
serde = { version = "1", features = ["derive"] }
serde_json = "1"
rand = "0.9"
dashmap = "6"
rocket = { version = "0.5", features = ["json"] }
rocket_cors = "0.6"
tokio = { version = "1", features = ["full"] }
tokio-tungstenite = "0.26"
futures-util = "0.3"
