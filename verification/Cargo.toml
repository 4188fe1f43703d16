[package]
name = "key_matrix"
version = "0.1.0"
edition = "2021"
publish = false

[dependencies]
rmk = { version = "=0.5.2", features = ["split", "async_matrix"] }
embassy-time = { version = "=0.4.0", features = ["std"] }
embassy-executor = { version = "=0.7.0", features = ["arch-std", "executor-thread"] }
embassy-futures = "=0.1.1"
embassy-usb = "=0.4.0"
embedded-hal = "=1.0.0"
embedded-hal-async = "=1.0.0"
embedded-storage-async = "=0.4.2"
heapless = "=0.8.0"
embassy-rp = { version = "=0.3.1", features = ["rp2040"] }
defmt-rtt = "=1.3.1"
panic-probe = "=1.0.0"
