[package]
name = "linear_wireless"
version = "0.1.0"
edition = "2021"
publish = false

[dependencies]
log = "0.4"
embedded-hal = "1.0"
embassy-time = "0.3"
embassy-sync = "0.6"
embassy-futures = "0.1"
embassy-executor = "0.5"
embassy-embedded-hal = "0.2"
static_cell = "2.1"
cfg-if = "1.0"
nb = "1.0"
esp-hal = "0.19"
esp-hal-embassy = "0.2"
esp-wifi = "0.7"
esp-backtrace = "0.13"
esp-println = "0.10"
