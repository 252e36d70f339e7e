[package]
name = "ibus_adapter"
version = "0.1.0"
edition = "2021"
publish = false

[dependencies]
smoltcp = { version = "=0.12.0", default-features = false, features = ["alloc", "medium-ethernet", "proto-ipv4", "socket-udp"] }
coap-lite = { version = "=0.13.3", default-features = false }
serial-line-ip = "=0.5.0"
embassy-sync = "=0.6.2"
embassy-time = "=0.4.0"
embassy-futures = "0.1"
embassy-net = { version = "0.6", features = ["udp", "proto-ipv4", "medium-ethernet"] }
embassy-net-driver-channel = "0.3"
embassy-stm32 = { version = "=0.2.0", features = ["stm32u585ai", "unstable-pac", "time-driver-any"] }
embassy-usb = "0.4"
embassy-executor = { version = "0.7", features = ["arch-std", "executor-thread"] }
embedded-alloc = "0.6"
embedded-io-async = "0.6"
heapless = "0.8"
rand_core = "0.6"
static_cell = "2"
async-trait = "0.1"
defmt = "0.3"
defmt-rtt = "0.4"
panic-probe = "0.3"
