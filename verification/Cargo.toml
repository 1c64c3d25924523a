[package]
name = "validation"
version = "0.1.0"
edition = "2021"
publish = false

[dependencies]
axum = { version = "0.8", default-features = false, features = ["json", "form", "query"] }
chrono = { version = "0.4", default-features = false, features = ["std"] }
chrono-tz = { version = "0.10", default-features = false }
email_address = { version = "0.2", default-features = false }
form_urlencoded = "1"
http = "1"
regex = "1"
serde = { version = "1", features = ["derive"] }
serde_json = "1"
serde_path_to_error = "0.1"
serde_urlencoded = "0.7"
ulid = { version = "1", default-features = false, features = ["std"] }
url = "2"
uuid = { version = "1", default-features = false, features = ["std"] }
