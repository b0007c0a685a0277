[package]
name = "php_lexer"
version = "0.1.0"
edition = "2021"
publish = false

[dependencies]
glob = "0.3"
regex = "1"
serde_json = "1"
sha256 = { version = "1", default-features = false }
thiserror = "1"
