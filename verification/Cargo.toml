[package]
name = "vault_core"
version = "0.1.0"
edition = "2021"
publish = false

[dependencies]
argon2 = "*"
chacha20poly1305 = "*"
getrandom = "*"
hkdf = "*"
rpassword = "*"
sha2 = "*"
