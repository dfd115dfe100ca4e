[package]
name = "io-email"
version = "0.1.0"
edition = "2021"
publish = false

[dependencies]
chrono = "=0.4.45"
io-gmail = "=0.1.0"
io-http = "0.3"
io-imap = "=0.2.0"
io-jmap = "=0.2.1"
io-m2dir = "=0.1.0"
io-maildir = "=0.1.0"
io-smtp = "0.2"
log = "0.4"
mail-parser = "0.11"
pimalaya-stream = "0.1"
rfc2047-decoder = "=1.1.2"
secrecy = "0.10"
serde = { version = "1", features = ["derive"] }
thiserror = "2"
url = "2"
uuid = { version = "1", features = ["v4"] }
