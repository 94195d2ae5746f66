[package]
name = "hit-auto-login-core"
version = "1.0.2"
edition = "2021"
publish = false

[dependencies]
base64 = "0.22"
hmac = "0.12"
md-5 = "0.10"
sha1 = "0.10"
serde = { version = "1", features = ["derive"] }
serde_json = "1"
regex = "1"
url = "2"
reqwest = { version = "0.12", default-features = false, features = ["rustls-tls", "cookies"] }
tokio = { version = "1", features = ["full"] }
async-trait = "0.1"
thiserror = "2"
directories = "6"
fs2 = "0.4"
futures-util = "0.3"
rpassword = "7"
zbus = "5"
ksni = "0.3"
gtk = "0.18"
