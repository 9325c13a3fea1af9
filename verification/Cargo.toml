[package]
name = "account_authority"
version = "0.1.0"
edition = "2021"
publish = false

[dependencies]
argon2 = "=0.5.3"
rand = "=0.9.5"
async-trait = "0.1"
geo-types = "0.7"
geozero = { version = "*", default-features = false, features = ["with-wkb", "with-geo", "with-postgis-sqlx"] }
reqwest = { version = "0.12", default-features = false }
serde = { version = "1", features = ["derive"] }
serde_json = "1"
sqlx = { version = "0.8", default-features = false, features = ["postgres", "runtime-tokio", "chrono", "uuid", "macros"] }
thiserror = "1"
