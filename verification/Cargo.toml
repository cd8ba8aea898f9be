[package]
name = "mcalendar"
version = "0.1.0"
edition = "2021"
publish = false

[dependencies]
chrono = { version = "0.4", default-features = false, features = ["clock", "std"] }
serde = { version = "1", features = ["derive"] }
serde_json = "1"
once_cell = "1"
futures = "0.3"
tokio = { version = "1", features = ["macros", "rt-multi-thread"] }
actix-web = { version = "4", default-features = false, features = ["macros"] }
sqlx = { version = "0.7", default-features = false, features = ["runtime-tokio", "postgres", "chrono"] }
reqwest = { version = "0.12", default-features = false }
