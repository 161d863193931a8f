[package]
name = "compact_mcp"
version = "0.1.0"
edition = "2021"
publish = false

[dependencies]
anyhow = "1"
axum = "0.8"
chrono = "0.4"
clap = { version = "4", features = ["derive", "env"] }
compactp_ast = "0.1.0-beta.1"
compactp_diagnostics = "0.1.0-beta.1"
compactp_lexer = "0.1.0-beta.1"
compactp_parser = "0.1.0-beta.1"
compactp_syntax = "0.1.0-beta.1"
http-body-util = "0.1"
libc = "0.2"
regex = "1"
rmcp = { version = "2.2", features = ["server", "macros", "client", "transport-io", "transport-streamable-http-server"] }
semver = "1"
serde = { version = "1", features = ["derive"] }
serde_json = "1"
thiserror = "2"
tokio = { version = "1", features = ["full"] }
tokio-util = "0.7"
tracing = "0.1"
tracing-subscriber = { version = "0.3", features = ["env-filter"] }
uuid = { version = "1", features = ["v4"] }
