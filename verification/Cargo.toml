[package]
name = "relay_paging"
version = "0.1.0"
edition = "2021"
publish = false

[dependencies]
actix-web = "=4.18.1"
chrono = "=0.4.45"
dotenv = "=0.15.0"
juniper = "=0.15.12"
sqlx = { version = "=0.7.4", default-features = false, features = ["runtime-tokio", "postgres", "chrono", "macros"] }
tokio = { version = "=1.54.1", features = ["macros", "rt-multi-thread"] }
