[package]
name = "cczuni"
version = "0.1.0"
edition = "2021"
publish = false

[dependencies]
base64 = "=0.23.1"
scraper = "=0.27.0"
serde_json = "=1.0.151"
uuid = { version = "=1.27.0", features = ["v3", "v4"] }
icalendar = "=0.17.14"
chrono = "=0.4.45"
serde = { version = "=1.0.229", features = ["derive"] }
reqwest = { version = "=0.13.5", default-features = false, features = ["json", "form", "query"] }
tokio = { version = "=1.53.2", features = ["macros", "rt-multi-thread"] }
anyhow = "=1.0.104"
aes = "=0.9.3"
cbc = "=0.2.1"
rand = "=0.10.3"
