[package]
name = "cradle"
version = "0.1.0"
edition = "2021"
publish = false

[dependencies]
security-framework = "3"
security-framework-sys = "2"
aes = "=0.9.4"
aes-kw = "=0.3.1"
anyhow = "=1.0.104"
cbc = "=0.2.1"
clap = { version = "=4.6.7", features = ["derive"] }
clap_complete = "=4.6.11"
dirs = "=7.0.0"
hex = "=0.4.3"
libc = "=0.2.191"
pbkdf2 = { version = "=0.13.0", features = ["hmac"] }
plist = "=1.10.3"
rand = "=0.10.3"
rpassword = "=7.5.4"
rusqlite = { version = "=0.41.1", features = ["bundled"] }
serde = { version = "=1.0.229", features = ["derive"] }
serde_json = "=1.0.154"
sha1 = "=0.11.0"
sha2 = "=0.11.1"
thiserror = "=2.0.21"
time = { version = "=0.3.55", features = ["formatting"] }
tokio = { version = "=1.54.1", features = ["full"] }
tracing = "=0.1.44"
tracing-subscriber = { version = "=0.3.23", features = ["env-filter"] }
