[package]
name = "session_auth"
version = "0.1.0"
edition = "2021"
publish = false

[dependencies]
base64 = "0.22"
bcrypt = "*"
hmac = "0.12"
sha2 = "0.10"
time = "0.3"
actix-web = { version = "4", default-features = false, features = ["macros", "cookies"] }
log = "0.4"
serde = { version = "1", features = ["derive"] }
utoipa = { version = "*", features = ["actix_extras"] }
utoipa-rapidoc = { version = "*", features = ["actix-web"] }
