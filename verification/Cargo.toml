[package]
name = "bis"
version = "0.1.0"
edition = "2021"
publish = false

[dependencies]
actix-web = "*"
anyhow = "*"
chrono = "*"
derive_more = { version = "*", features = ["display"] }
dotenvy = "*"
env_logger = "*"
log = "*"
serde = { version = "*", features = ["derive"] }
thiserror = "*"
utoipa = { version = "*", features = ["actix_extras"] }
utoipa-swagger-ui = { version = "*", features = ["actix-web"] }
