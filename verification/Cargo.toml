[package]
name = "wakew"
version = "0.1.0"
edition = "2021"
publish = false

[dependencies]
libm = "=0.2.16"
microfft = "=0.6.0"
thiserror = "=2.0.21"
embassy-futures = "=0.1.2"
embassy-sync = "=0.8.0"
embassy-time = "=0.5.1"
embassy-executor = { version = "=0.9.1", features = ["arch-spin", "executor-thread"] }
embassy-nrf = { version = "=0.11.0", features = ["nrf52833", "time-driver-rtc1", "gpiote"] }
cortex-m = { version = "=0.7.10", features = ["critical-section-single-core"] }
cortex-m-rt = "=0.7.7"
defmt = "=1.2.0"
defmt-rtt = "=1.3.1"
panic-probe = "=1.0.0"
rtt-target = "=0.6.2"
static_cell = "=2.1.1"
