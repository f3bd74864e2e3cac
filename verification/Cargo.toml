[package]
name = "rocket_i18n"
version = "0.5.0"
edition = "2021"
publish = false

[dependencies]
gettext = "0.4"
actix-web = { version = "4", default-features = false }
rocket = { version = "0.5", default-features = false }
