[package]
name = "mutao"
version = "0.1.0"
edition = "2021"
publish = false

[dependencies]
uuid = { version = "=1.29.1", features = ["v4", "serde"] }
chrono = { version = "=0.4.45", features = ["serde"] }
jsonwebtoken = "=9.3.1"
bcrypt = "=0.15.1"
tokio = { version = "=1.54.1", features = ["full"] }
serde = { version = "=1.0.229", features = ["derive"] }
serde_json = { version = "=1.0.154", features = ["preserve_order"] }
axum = { version = "=0.7.9", features = ["ws", "multipart"] }
sqlx = { version = "=0.7.4", default-features = false, features = ["runtime-tokio", "postgres", "uuid", "chrono", "json", "macros"] }
thiserror = "=1.0.69"
tracing = "=0.1.44"
tracing-subscriber = "=0.3.23"
dotenvy = "=0.15.7"
futures = "=0.3.34"
async-trait = "=0.1.92"
tower-http = { version = "=0.5.2", features = ["fs"] }
utoipa = { version = "=4.2.3", features = ["uuid", "chrono"] }
utoipa-swagger-ui = { version = "=6.0.0", features = ["axum"] }

[dev-dependencies]
tower = { version = "=0.4.13", features = ["util"] }
