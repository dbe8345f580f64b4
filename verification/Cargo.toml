[package]
name = "keefuzz"
version = "0.1.0"
edition = "2021"
publish = false

[dependencies]
arboard = { version = "*", default-features = false }
keepass = "*"
lexopt = "*"
rpassword = "*"
shell-words = "*"
thiserror = "*"
zeroize = "*"
