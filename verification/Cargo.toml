[package]
name = "taskette"
version = "0.1.0"
edition = "2021"
publish = false

[dependencies]
heapless = "*"
portable-atomic = "*"
critical-section = { version = "*", features = ["std"] }
cortex-m = "0.7"
cortex-m-rt = "0.7"
embedded-hal = "1"
log = "*"
static_cell = "*"
