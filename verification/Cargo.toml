[package]
name = "todo_store"
version = "0.1.0"
edition = "2021"
publish = false

[dependencies]
chrono = "*"
serde = { version = "*", features = ["derive"] }
sqlx = { version = "*", features = ["sqlite", "runtime-tokio"] }
tokio = { version = "*", features = ["rt"] }
