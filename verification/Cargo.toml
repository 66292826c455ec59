[package]
name = "primer29"
version = "0.1.0"
edition = "2021"
publish = false

[dependencies]
embassy-time = "*"
embassy-executor = "*"
embassy-rp = { version = "*", features = ["rp2040", "time-driver"] }
defmt = "*"
defmt-rtt = "*"
panic-probe = "*"
