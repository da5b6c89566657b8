[package]
name = "led_pulse"
version = "0.1.0"
edition = "2021"
publish = false

[dependencies]
anyhow = "1"
enumset = "1"
esp-idf-hal = "=0.43.1"
esp-idf-svc = "=0.48.1"
esp-idf-sys = "=0.34.1"
heapless = "0.8"
log = "0.4"
