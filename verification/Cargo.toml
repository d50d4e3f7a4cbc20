[package]
name = "cognito_user_reader"
version = "0.1.0"
edition = "2021"
publish = false

[dependencies]
chrono = "*"
console = "*"
structopt = "*"
tokio = { version = "*", features = ["macros", "rt-multi-thread", "fs", "io-util"] }
rusoto_core = { version = "*", default-features = false, features = ["rustls"] }
rusoto_cognito_idp = { version = "*", default-features = false, features = ["rustls"] }
