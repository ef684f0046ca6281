[package]
name = "wukong"
version = "0.1.0"
edition = "2021"
publish = false

[dependencies]
redb = "*"
chrono = "*"
uuid = { version = "*", features = ["v4"] }
homedir = "*"
parking_lot = "*"
once_cell = "*"
anyhow = "*"
tracing = "*"
tracing-subscriber = { version = "*", features = ["time"] }
time = { version = "*", features = ["macros", "formatting"] }
num_cpus = "*"
rayon = "*"
