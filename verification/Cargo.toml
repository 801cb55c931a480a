[package]
name = "hwmon_exporter"
version = "0.1.0"
edition = "2021"
publish = false

[dependencies]
regex = "1"
once_cell = "1"
actix-web = { version = "4", default-features = false, features = ["macros"] }
