[package]
name = "multipart"
version = "0.1.0"
edition = "2021"
publish = false

[dependencies]
actix-http = { version = "3", default-features = false }
bytes = "1"
futures = "0.3"
http = "0.2"
httparse = "1"
memchr = "2"
mime = "0.3"
thiserror = "1"
