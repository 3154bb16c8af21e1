[package]
name = "guess_server"
version = "0.1.0"
edition = "2021"
publish = false

[dependencies]
anyhow = "1"
log = "0.4"
embedded-svc = "*"
esp-idf-svc = "*"
esp-idf-hal = "*"
embedded-graphics = "*"
ssd1306 = "*"
