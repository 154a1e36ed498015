[package]
name = "restaurant_directory"
version = "0.1.0"
edition = "2021"
publish = false

[dependencies]
uuid = { version = "1", features = ["v4", "serde"] }
url = { version = "2", features = ["serde"] }
chrono = { version = "0.4", features = ["serde"] }
serde = { version = "1", features = ["derive"] }
axum = { version = "0.7" }
axum-template = { version = "2", features = ["handlebars"] }
handlebars = { version = "*" }
tokio = { version = "1", features = ["full"] }
tower-http = { version = "0.5", features = ["fs"] }
