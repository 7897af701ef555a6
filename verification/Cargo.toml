[package]
name = "rostr"
version = "0.1.0"
edition = "2021"
publish = false

[dependencies]
rand = "=0.8.8"
chrono = "=0.4.45"
aes-gcm = "=0.10.3"
base64 = "=0.22.1"
serde = { version = "=1.0.229", features = ["derive"] }
serde_json = "=1.0.154"
csv = "=1.4.0"
rusqlite = { version = "=0.31.0", features = ["bundled"] }
rust_xlsxwriter = "=0.102.0"
dirs = "=5.0.1"
tokio = { version = "=1.54.1", features = ["time", "rt", "macros"] }
futures-util = "=0.3.34"
async-stream = "=0.3.6"
iced = { version = "0.14", default-features = false, features = ["tiny-skia", "tokio"] }
lucide-icons = { version = "*", features = ["iced"] }
reqwest = { version = "0.12", default-features = false, features = ["json", "stream", "rustls-tls"] }
printpdf = "0.7"
