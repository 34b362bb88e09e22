[package]
name = "rosserial"
version = "0.1.0"
edition = "2021"
publish = false

[dependencies]
cortex-m-rtic = "0.5"
cortex-m-semihosting = "0.3"
heapless = "0.5"
nb = "1"
panic-semihosting = "0.5"
stm32f3xx-hal = { version = "0.6", features = ["stm32f303xc", "rt"] }
switch-hal = "0.3"
