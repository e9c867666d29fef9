[package]
name = "feature_flags"
version = "0.1.0"
edition = "2021"
publish = false

[dependencies]
qp-trie = "*"
rand = "0.8"
chrono = "*"
tokio = { version = "*", features = ["rt-multi-thread", "macros", "time"] }
sqlx = { version = "*", default-features = false, features = ["runtime-tokio", "postgres"] }
