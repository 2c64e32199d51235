[package]
name = "dht11_driver_rust"
version = "0.1.2"
edition = "2021"
publish = false

[dependencies]
embedded-hal = "=1.0.0"
cortex-m = "=0.7.10"
defmt = "1"
