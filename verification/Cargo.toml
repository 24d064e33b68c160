[package]
name = "els_core"
version = "0.1.0"
edition = "2021"
publish = false

[dependencies]
heapless = "=0.8.0"
edge-dhcp = "*"
edge-nal = "*"
edge-nal-embassy = "*"
embassy-executor = "*"
embassy-futures = "*"
embassy-net = "*"
embassy-sync = "*"
embassy-time = "*"
embedded-io-async = "*"
embedded-storage = "*"
esp-alloc = "*"
esp-backtrace = "*"
esp-bootloader-esp-idf = "*"
esp-hal = "*"
esp-println = "*"
esp-radio = "*"
esp-rtos = "*"
esp-storage = "*"
static_cell = "*"
