[package]
name = "segment_display"
version = "0.1.0"
edition = "2021"
publish = false

[dependencies]
embedded-graphics = "*"
esp-idf-hal = "*"
esp-idf-svc = "*"
log = "*"
mipidsi = "*"
ws2812-esp32-rmt-driver = "*"
