[package]
name = "veilocity"
version = "0.1.0"
edition = "2021"
publish = false

[dependencies]
light-poseidon = "0.2"
ark-bn254 = "0.4"
ark-ff = "0.4"
hex = "0.4"
rand = "0.8"
serde = { version = "1", features = ["derive"] }
serde_json = "1"
rusqlite = { version = "*", features = ["bundled"] }
anyhow = "1"
thiserror = "*"
tokio = { version = "1", features = ["full"] }
reqwest = { version = "0.12", default-features = false, features = ["json", "rustls-tls"] }
clap = { version = "4", features = ["derive", "env"] }
toml = "*"
directories = "*"
dirs = "*"
aes-gcm = "0.10"
argon2 = "0.5"
zeroize = { version = "1", features = ["derive"] }
rpassword = "*"
colored = "*"
indicatif = "*"
tracing = "0.1"
tracing-subscriber = "*"
axum = "*"
tower-http = { version = "*", features = ["cors"] }
