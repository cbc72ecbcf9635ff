[package]
name = "engram-mcp"
version = "0.1.0"
edition = "2021"
publish = false

[dependencies]
axum = "0.8"
base64 = "0.22"
getrandom = "0.3"
hmac = "0.12"
ignore = "0.4"
rmcp = { version = "*", features = ["server", "macros", "transport-streamable-http-server"] }
rustix = { version = "1", features = ["fs"] }
schemars = "1"
serde = { version = "1", features = ["derive"] }
serde_json = { version = "1", features = ["preserve_order"] }
serde_yaml = "0.9"
sha2 = "0.10"
subtle = "2"
thiserror = "2"
tower = { version = "0.5", features = ["limit"] }
tower-http = { version = "0.6", features = ["limit"] }
tracing = "0.1"
url = "2"
