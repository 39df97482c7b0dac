[package]
name = "esp_examples"
version = "0.1.0"
edition = "2021"
publish = false

[dependencies]
nobcd = "*"
chrono = "0.4"
anyhow = "1"
log = "0.4"
libm = "0.2"
critical-section = "1"
nb = "1"
esp-hal = "0.23"
esp-println = "0.13"
esp-backtrace = "0.15"
esp-idf-svc = "0.51"
