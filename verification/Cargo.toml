[package]
name = "iidx_core"
version = "0.1.0"
edition = "2021"
publish = false

[dependencies]
smart-leds = "*"
embassy-executor = "*"
embassy-futures = "*"
embassy-rp = "*"
embassy-sync = "*"
embassy-time = "*"
embassy-usb = "*"
cortex-m-rt = "*"
defmt = "*"
defmt-rtt = "*"
panic-probe = "*"
fixed = "*"
static_cell = "*"
usbd-hid = "*"
