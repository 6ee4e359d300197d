[package]
name = "planter_core"
version = "0.1.0"
edition = "2021"
publish = false

[dependencies]
anyhow = "1"
chrono = { version = "0.4", default-features = false, features = ["std", "now"] }
daggy = "*"
email_address = "*"
once_cell = "1"
phonenumber = "*"
regex = "1"
thiserror = "*"
