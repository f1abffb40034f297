[package]
name = "shuttle_core"
version = "0.1.0"
edition = "2021"
publish = false

[dependencies]
axum = "=0.8.9"
bcrypt = "=0.19.3"
chrono = { version = "=0.4.45", features = ["serde"] }
dotenv = "=0.15.0"
reqwest = { version = "=0.13.5", default-features = false, features = ["json"] }
serde = { version = "*", features = ["derive"] }
serde_json = "*"
sqlx = { version = "=0.9.0", default-features = false, features = ["runtime-tokio", "postgres", "uuid", "chrono"] }
tokio = { version = "=1.53.2", features = ["macros", "rt-multi-thread", "net", "time"] }
tower-http = { version = "=0.7.1", features = ["cors"] }
uuid = { version = "=1.27.0", features = ["serde", "v4"] }
